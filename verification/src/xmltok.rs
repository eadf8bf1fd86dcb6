//! Token model of the two tag dialects.
//!
//! The canonical dialect writes elements as `<Name>` and `</Name>`. The
//! archive's own illegal dialect writes every opening tag as
//! `<Wrapper: Name >` and every closing tag as `</Wrapper>`, where the
//! wrapper word says whether the element is a structured sub-object or a
//! scalar attribute. This module scans text into token sequences of
//! either dialect and renders them back, and proves that scanning inverts
//! rendering on well-formed token sequences.
use vstd::prelude::*;
use crate::error::PlaymissionError;
use crate::text::{chars_of, string_from_chars};

verus! {

/// Model token of the canonical dialect.
pub enum CTok {
    Open(Seq<char>),
    Close(Seq<char>),
    Text(Seq<char>),
}

/// Model token of the illegal dialect: opening and closing tags carry
/// the wrapper word, opening tags also the element name.
pub enum DTok {
    Open(Seq<char>, Seq<char>),
    Close(Seq<char>),
    Text(Seq<char>),
}

/// Executable token of the canonical dialect.
#[derive(Debug, Clone, PartialEq)]
pub enum CTokE {
    Open(String),
    Close(String),
    Text(String),
}

/// Executable token of the illegal dialect.
#[derive(Debug, Clone, PartialEq)]
pub enum DTokE {
    Open(String, String),
    Close(String),
    Text(String),
}

impl View for CTokE {
    type V = CTok;

    open spec fn view(&self) -> CTok {
        match self {
            CTokE::Open(n) => CTok::Open(n@),
            CTokE::Close(n) => CTok::Close(n@),
            CTokE::Text(t) => CTok::Text(t@),
        }
    }
}

impl View for DTokE {
    type V = DTok;

    open spec fn view(&self) -> DTok {
        match self {
            DTokE::Open(w, n) => DTok::Open(w@, n@),
            DTokE::Close(w) => DTok::Close(w@),
            DTokE::Text(t) => DTok::Text(t@),
        }
    }
}

/// Model of an executable canonical token list.
pub open spec fn ctoks_view(ts: Seq<CTokE>) -> Seq<CTok> {
    Seq::new(ts.len(), |i: int| ts[i]@)
}

/// Model of an executable illegal-dialect token list.
pub open spec fn dtoks_view(ts: Seq<DTokE>) -> Seq<DTok> {
    Seq::new(ts.len(), |i: int| ts[i]@)
}

// ---------------------------------------------------------------------
// Words and character search
// ---------------------------------------------------------------------
/// A tag-name character: an ASCII letter, digit or underscore.
pub open spec fn is_word_char(c: char) -> bool {
    ||| 97 <= c as u32 <= 122
    ||| 65 <= c as u32 <= 90
    ||| 48 <= c as u32 <= 57
    ||| c == '_'
}

/// A tag name: one or more word characters.
pub open spec fn is_word(s: Seq<char>) -> bool {
    s.len() > 0 && forall|i: int| 0 <= i < s.len() ==> is_word_char(#[trigger] s[i])
}

/// First index at or after `from` holding `c`, or -1.
pub open spec fn find_char(s: Seq<char>, c: char, from: int) -> int
    decreases s.len() - from,
{
    if from < 0 || from >= s.len() {
        -1
    } else if s[from] == c {
        from
    } else {
        find_char(s, c, from + 1)
    }
}

pub proof fn lemma_find_char_found(s: Seq<char>, c: char, from: int)
    requires
        0 <= from,
    ensures
        find_char(s, c, from) >= 0 ==> {
            &&& from <= find_char(s, c, from) < s.len()
            &&& s[find_char(s, c, from)] == c
            &&& forall|k: int| from <= k < find_char(s, c, from) ==> s[k] != c
        },
        find_char(s, c, from) < 0 ==> (forall|k: int| from <= k < s.len() ==> s[k] != c),
    decreases s.len() - from,
{
    if from < s.len() && s[from] != c {
        lemma_find_char_found(s, c, from + 1);
    }
}

/// The first match at or after a position whose earlier positions hold
/// no match.
pub proof fn lemma_find_char_at(s: Seq<char>, c: char, from: int, i: int)
    requires
        0 <= from <= i < s.len(),
        s[i] == c,
        forall|k: int| from <= k < i ==> s[k] != c,
    ensures
        find_char(s, c, from) == i,
    decreases i - from,
{
    if from < i {
        lemma_find_char_at(s, c, from + 1, i);
    }
}

/// Searching a suffix is searching the whole with an offset.
pub proof fn lemma_find_char_skip(s: Seq<char>, p: int, c: char, from: int)
    requires
        0 <= p <= s.len(),
        0 <= from,
    ensures
        find_char(s.skip(p), c, from) == if find_char(s, c, from + p) < 0 {
            -1
        } else {
            find_char(s, c, from + p) - p
        },
    decreases s.len() - p - from,
{
    if from < s.skip(p).len() {
        assert(s.skip(p)[from] == s[from + p]);
        if s[from + p] != c {
            lemma_find_char_skip(s, p, c, from + 1);
        }
    }
}

// ---------------------------------------------------------------------
// Rendering
// ---------------------------------------------------------------------
/// Text of one canonical token.
pub open spec fn render_c_tok(t: CTok) -> Seq<char> {
    match t {
        CTok::Open(n) => seq!['<'] + n + seq!['>'],
        CTok::Close(n) => seq!['<', '/'] + n + seq!['>'],
        CTok::Text(x) => x,
    }
}

/// Text of a canonical token sequence.
pub open spec fn render_c(ts: Seq<CTok>) -> Seq<char>
    decreases ts.len(),
{
    if ts.len() == 0 {
        Seq::empty()
    } else {
        render_c_tok(ts[0]) + render_c(ts.skip(1))
    }
}

/// Text of one illegal-dialect token.
pub open spec fn render_d_tok(t: DTok) -> Seq<char> {
    match t {
        DTok::Open(w, n) => seq!['<'] + w + seq![':', ' '] + n + seq![' ', '>'],
        DTok::Close(w) => seq!['<', '/'] + w + seq!['>'],
        DTok::Text(x) => x,
    }
}

/// Text of an illegal-dialect token sequence.
pub open spec fn render_d(ts: Seq<DTok>) -> Seq<char>
    decreases ts.len(),
{
    if ts.len() == 0 {
        Seq::empty()
    } else {
        render_d_tok(ts[0]) + render_d(ts.skip(1))
    }
}

// ---------------------------------------------------------------------
// Well-formed token sequences
// ---------------------------------------------------------------------
/// A text chunk as a scanner produces it: nonempty, holding no tag
/// opener.
pub open spec fn wf_text(x: Seq<char>) -> bool {
    x.len() > 0 && forall|i: int| 0 <= i < x.len() ==> (#[trigger] x[i]) != '<'
}

/// Scanner-shaped canonical tokens: names are words, text chunks are
/// nonempty without tag openers, and no two text chunks are adjacent.
pub open spec fn wf_ctoks(ts: Seq<CTok>) -> bool {
    forall|i: int|
        0 <= i < ts.len() ==> match #[trigger] ts[i] {
            CTok::Open(n) => is_word(n),
            CTok::Close(n) => is_word(n),
            CTok::Text(x) => wf_text(x) && (i + 1 < ts.len() ==> !(ts[i + 1] is Text)),
        }
}

/// Scanner-shaped illegal-dialect tokens.
pub open spec fn wf_dtoks(ts: Seq<DTok>) -> bool {
    forall|i: int|
        0 <= i < ts.len() ==> match #[trigger] ts[i] {
            DTok::Open(w, n) => is_word(w) && is_word(n),
            DTok::Close(w) => is_word(w),
            DTok::Text(x) => wf_text(x) && (i + 1 < ts.len() ==> !(ts[i + 1] is Text)),
        }
}

// ---------------------------------------------------------------------
// Scanning
// ---------------------------------------------------------------------
/// Prepends a token to a scanned tail.
pub open spec fn cons_c(t: CTok, rest: Option<Seq<CTok>>) -> Option<Seq<CTok>> {
    match rest {
        Some(ts) => Some(seq![t] + ts),
        None => None,
    }
}

/// Prepends a token to a scanned tail.
pub open spec fn cons_d(t: DTok, rest: Option<Seq<DTok>>) -> Option<Seq<DTok>> {
    match rest {
        Some(ts) => Some(seq![t] + ts),
        None => None,
    }
}

/// Scans canonical-dialect text into tokens; malformed tags scan to
/// nothing.
pub open spec fn scan_c(s: Seq<char>) -> Option<Seq<CTok>>
    decreases s.len(),
{
    if s.len() == 0 {
        Some(Seq::empty())
    } else if s[0] == '<' {
        let j = find_char(s, '>', 1);
        if j < 1 || j >= s.len() {
            None
        } else {
            let inner = s.subrange(1, j);
            if inner.len() > 0 && inner[0] == '/' {
                if is_word(inner.skip(1)) {
                    cons_c(CTok::Close(inner.skip(1)), scan_c(s.skip(j + 1)))
                } else {
                    None
                }
            } else if is_word(inner) {
                cons_c(CTok::Open(inner), scan_c(s.skip(j + 1)))
            } else {
                None
            }
        }
    } else {
        let j = find_char(s, '<', 1);
        if j < 1 || j > s.len() {
            cons_c(CTok::Text(s), Some(Seq::empty()))
        } else {
            cons_c(CTok::Text(s.take(j)), scan_c(s.skip(j)))
        }
    }
}

/// Scans illegal-dialect text into tokens; malformed tags scan to
/// nothing. An opening tag reads `<Wrapper: Name >`, a closing tag
/// `</Wrapper>`.
pub open spec fn scan_d(s: Seq<char>) -> Option<Seq<DTok>>
    decreases s.len(),
{
    if s.len() == 0 {
        Some(Seq::empty())
    } else if s[0] == '<' {
        let j = find_char(s, '>', 1);
        if j < 1 || j >= s.len() {
            None
        } else {
            let inner = s.subrange(1, j);
            if inner.len() > 0 && inner[0] == '/' {
                if is_word(inner.skip(1)) {
                    cons_d(DTok::Close(inner.skip(1)), scan_d(s.skip(j + 1)))
                } else {
                    None
                }
            } else {
                let ci = find_char(inner, ':', 0);
                if ci < 1 {
                    None
                } else {
                    let w = inner.take(ci);
                    if is_word(w) && inner.len() >= ci + 4 && inner[ci + 1] == ' ' && inner[
                        inner.len() - 1
                    ] == ' ' && is_word(inner.subrange(ci + 2, inner.len() - 1)) {
                        cons_d(
                            DTok::Open(w, inner.subrange(ci + 2, inner.len() - 1)),
                            scan_d(s.skip(j + 1)),
                        )
                    } else {
                        None
                    }
                }
            }
        }
    } else {
        let j = find_char(s, '<', 1);
        if j < 1 || j > s.len() {
            cons_d(DTok::Text(s), Some(Seq::empty()))
        } else {
            cons_d(DTok::Text(s.take(j)), scan_d(s.skip(j)))
        }
    }
}

// ---------------------------------------------------------------------
// Scanning inverts rendering
// ---------------------------------------------------------------------
/// A word character is not a markup character.
pub proof fn lemma_word_char_not_markup(c: char)
    requires
        is_word_char(c),
    ensures
        c != '<' && c != '>' && c != '/' && c != ':' && c != ' ',
{
}

pub proof fn lemma_wf_ctoks_skip(ts: Seq<CTok>)
    requires
        wf_ctoks(ts),
        ts.len() > 0,
    ensures
        wf_ctoks(ts.skip(1)),
{
    assert forall|i: int| 0 <= i < ts.skip(1).len() implies match #[trigger] ts.skip(1)[i] {
        CTok::Open(n) => is_word(n),
        CTok::Close(n) => is_word(n),
        CTok::Text(x) => wf_text(x) && (i + 1 < ts.skip(1).len() ==> !(ts.skip(1)[i + 1] is Text)),
    } by {
        assert(ts.skip(1)[i] == ts[i + 1]);
        assert(i + 2 < ts.len() ==> ts.skip(1)[i + 1] == ts[i + 2]);
    }
}

pub proof fn lemma_wf_dtoks_skip(ts: Seq<DTok>)
    requires
        wf_dtoks(ts),
        ts.len() > 0,
    ensures
        wf_dtoks(ts.skip(1)),
{
    assert forall|i: int| 0 <= i < ts.skip(1).len() implies match #[trigger] ts.skip(1)[i] {
        DTok::Open(w, n) => is_word(w) && is_word(n),
        DTok::Close(w) => is_word(w),
        DTok::Text(x) => wf_text(x) && (i + 1 < ts.skip(1).len() ==> !(ts.skip(1)[i + 1] is Text)),
    } by {
        assert(ts.skip(1)[i] == ts[i + 1]);
        assert(i + 2 < ts.len() ==> ts.skip(1)[i + 1] == ts[i + 2]);
    }
}

/// The rendering of a nonempty token list begins with `<` exactly when
/// its first token is a tag.
pub proof fn lemma_render_c_first(ts: Seq<CTok>)
    requires
        wf_ctoks(ts),
        ts.len() > 0,
    ensures
        render_c(ts).len() > 0,
        (render_c(ts)[0] == '<') == !(ts[0] is Text),
{
    match ts[0] {
        CTok::Open(n) => {
            assert(render_c(ts)[0] == '<');
        },
        CTok::Close(n) => {
            assert(render_c(ts)[0] == '<');
        },
        CTok::Text(x) => {
            assert(render_c(ts)[0] == x[0]);
            assert(x[0] != '<');
        },
    }
}

/// The rendering of a nonempty token list begins with `<` exactly when
/// its first token is a tag.
pub proof fn lemma_render_d_first(ts: Seq<DTok>)
    requires
        wf_dtoks(ts),
        ts.len() > 0,
    ensures
        render_d(ts).len() > 0,
        (render_d(ts)[0] == '<') == !(ts[0] is Text),
{
    match ts[0] {
        DTok::Open(w, n) => {
            assert(render_d(ts)[0] == '<');
        },
        DTok::Close(w) => {
            assert(render_d(ts)[0] == '<');
        },
        DTok::Text(x) => {
            assert(render_d(ts)[0] == x[0]);
            assert(x[0] != '<');
        },
    }
}

/// Scanning the canonical dialect inverts rendering on well-formed
/// tokens.
pub proof fn lemma_scan_render_c(ts: Seq<CTok>)
    requires
        wf_ctoks(ts),
    ensures
        scan_c(render_c(ts)) == Some(ts),
    decreases ts.len(),
{
    let s = render_c(ts);
    if ts.len() == 0 {
        assert(s =~= Seq::<char>::empty());
        assert(scan_c(s) == Some(Seq::<CTok>::empty()));
    } else {
        let rest = render_c(ts.skip(1));
        lemma_wf_ctoks_skip(ts);
        lemma_scan_render_c(ts.skip(1));
        match ts[0] {
            CTok::Open(n) => {
                let j = 1 + n.len() as int;
                assert(s[0] == '<');
                assert(s[j] == '>');
                assert forall|k: int| 1 <= k < j implies s[k] != '>' by {
                    assert(s[k] == n[k - 1]);
                    lemma_word_char_not_markup(n[k - 1]);
                }
                lemma_find_char_at(s, '>', 1, j);
                assert(s.subrange(1, j) =~= n);
                lemma_word_char_not_markup(n[0]);
                assert(s.skip(j + 1) =~= rest);
                assert(scan_c(s) == cons_c(CTok::Open(n), Some(ts.skip(1))));
                assert(seq![CTok::Open(n)] + ts.skip(1) =~= ts);
            },
            CTok::Close(n) => {
                let j = 2 + n.len() as int;
                assert(s[0] == '<');
                assert(s[1] == '/');
                assert(s[j] == '>');
                assert forall|k: int| 1 <= k < j implies s[k] != '>' by {
                    if k >= 2 {
                        assert(s[k] == n[k - 2]);
                        lemma_word_char_not_markup(n[k - 2]);
                    }
                }
                lemma_find_char_at(s, '>', 1, j);
                assert(s.subrange(1, j)[0] == '/');
                assert(s.subrange(1, j).skip(1) =~= n);
                assert(s.skip(j + 1) =~= rest);
                assert(scan_c(s) == cons_c(CTok::Close(n), Some(ts.skip(1))));
                assert(seq![CTok::Close(n)] + ts.skip(1) =~= ts);
            },
            CTok::Text(x) => {
                assert(s[0] == x[0]);
                assert(x[0] != '<');
                if ts.len() == 1 {
                    assert(s =~= x);
                    assert(forall|k: int| 1 <= k < s.len() ==> s[k] != '<');
                    lemma_find_char_found(s, '<', 1);
                    assert(find_char(s, '<', 1) < 1);
                    assert(scan_c(s) == cons_c(CTok::Text(s), Some(Seq::<CTok>::empty())));
                    assert(seq![CTok::Text(x)] + Seq::<CTok>::empty() =~= ts);
                } else {
                    let j = x.len() as int;
                    assert(!(ts[1] is Text));
                    assert(ts.skip(1)[0] == ts[1]);
                    lemma_render_c_first(ts.skip(1));
                    assert(s[j] == rest[0]);
                    assert(s[j] == '<');
                    assert forall|k: int| 1 <= k < j implies s[k] != '<' by {
                        assert(s[k] == x[k]);
                    }
                    lemma_find_char_at(s, '<', 1, j);
                    assert(s.take(j) =~= x);
                    assert(s.skip(j) =~= rest);
                    assert(scan_c(s) == cons_c(CTok::Text(x), Some(ts.skip(1))));
                    assert(seq![CTok::Text(x)] + ts.skip(1) =~= ts);
                }
            },
        }
    }
}

/// Scanning the illegal dialect inverts rendering on well-formed tokens.
pub proof fn lemma_scan_render_d(ts: Seq<DTok>)
    requires
        wf_dtoks(ts),
    ensures
        scan_d(render_d(ts)) == Some(ts),
    decreases ts.len(),
{
    let s = render_d(ts);
    if ts.len() == 0 {
        assert(s =~= Seq::<char>::empty());
        assert(scan_d(s) == Some(Seq::<DTok>::empty()));
    } else {
        let rest = render_d(ts.skip(1));
        lemma_wf_dtoks_skip(ts);
        lemma_scan_render_d(ts.skip(1));
        match ts[0] {
            DTok::Open(w, n) => {
                let wl = w.len() as int;
                let nl = n.len() as int;
                let j = 1 + wl + 2 + nl + 1;
                assert(s[0] == '<');
                assert(s[1 + wl] == ':');
                assert(s[1 + wl + 1] == ' ');
                assert(s[j - 1] == ' ');
                assert(s[j] == '>');
                assert forall|k: int| 1 <= k < j implies s[k] != '>' by {
                    if 1 <= k < 1 + wl {
                        assert(s[k] == w[k - 1]);
                        lemma_word_char_not_markup(w[k - 1]);
                    } else if 1 + wl + 2 <= k < j - 1 {
                        assert(s[k] == n[k - (1 + wl + 2)]);
                        lemma_word_char_not_markup(n[k - (1 + wl + 2)]);
                    }
                }
                lemma_find_char_at(s, '>', 1, j);
                let inner = s.subrange(1, j);
                assert(inner.len() == j - 1);
                lemma_word_char_not_markup(w[0]);
                assert(inner[0] == w[0]);
                assert(inner[0] != '/');
                assert(inner[wl] == ':');
                assert forall|k: int| 0 <= k < wl implies inner[k] != ':' by {
                    assert(inner[k] == w[k]);
                    lemma_word_char_not_markup(w[k]);
                }
                lemma_find_char_at(inner, ':', 0, wl);
                assert(inner.take(wl) =~= w);
                assert(inner[wl + 1] == ' ');
                assert(inner[inner.len() - 1] == ' ');
                assert(inner.subrange(wl + 2, inner.len() - 1) =~= n);
                assert(s.skip(j + 1) =~= rest);
                assert(scan_d(s) == cons_d(DTok::Open(w, n), Some(ts.skip(1))));
                assert(seq![DTok::Open(w, n)] + ts.skip(1) =~= ts);
            },
            DTok::Close(w) => {
                let j = 2 + w.len() as int;
                assert(s[0] == '<');
                assert(s[1] == '/');
                assert(s[j] == '>');
                assert forall|k: int| 1 <= k < j implies s[k] != '>' by {
                    if k >= 2 {
                        assert(s[k] == w[k - 2]);
                        lemma_word_char_not_markup(w[k - 2]);
                    }
                }
                lemma_find_char_at(s, '>', 1, j);
                assert(s.subrange(1, j)[0] == '/');
                assert(s.subrange(1, j).skip(1) =~= w);
                assert(s.skip(j + 1) =~= rest);
                assert(scan_d(s) == cons_d(DTok::Close(w), Some(ts.skip(1))));
                assert(seq![DTok::Close(w)] + ts.skip(1) =~= ts);
            },
            DTok::Text(x) => {
                assert(s[0] == x[0]);
                assert(x[0] != '<');
                if ts.len() == 1 {
                    assert(s =~= x);
                    assert(forall|k: int| 1 <= k < s.len() ==> s[k] != '<');
                    lemma_find_char_found(s, '<', 1);
                    assert(find_char(s, '<', 1) < 1);
                    assert(scan_d(s) == cons_d(DTok::Text(s), Some(Seq::<DTok>::empty())));
                    assert(seq![DTok::Text(x)] + Seq::<DTok>::empty() =~= ts);
                } else {
                    let j = x.len() as int;
                    assert(!(ts[1] is Text));
                    assert(ts.skip(1)[0] == ts[1]);
                    lemma_render_d_first(ts.skip(1));
                    assert(s[j] == rest[0]);
                    assert(s[j] == '<');
                    assert forall|k: int| 1 <= k < j implies s[k] != '<' by {
                        assert(s[k] == x[k]);
                    }
                    lemma_find_char_at(s, '<', 1, j);
                    assert(s.take(j) =~= x);
                    assert(s.skip(j) =~= rest);
                    assert(scan_d(s) == cons_d(DTok::Text(x), Some(ts.skip(1))));
                    assert(seq![DTok::Text(x)] + ts.skip(1) =~= ts);
                }
            },
        }
    }
}

// ---------------------------------------------------------------------
// Executable search, scan and render
// ---------------------------------------------------------------------
/// First position at or after `from` holding `c`.
pub fn find_char_exec(v: &Vec<char>, c: char, from: usize) -> (r: Option<usize>)
    ensures
        match r {
            Some(i) => find_char(v@, c, from as int) == i as int && from <= i < v@.len()
                && v@[i as int] == c,
            None => find_char(v@, c, from as int) == -1,
        },
{
    let n = v.len();
    let mut j = from;
    while j < n
        invariant
            from <= j,
            n == v@.len(),
            find_char(v@, c, from as int) == find_char(v@, c, j as int),
        decreases n - j,
    {
        if v[j] == c {
            return Some(j);
        }
        j = j + 1;
    }
    None
}

/// The word spanning a range, or nothing where the range is not a word.
pub fn word_of(v: &Vec<char>, from: usize, to: usize) -> (r: Option<String>)
    requires
        from <= to <= v@.len(),
    ensures
        match r {
            Some(s) => s@ == v@.subrange(from as int, to as int) && is_word(s@),
            None => !is_word(v@.subrange(from as int, to as int)),
        },
{
    if from == to {
        return None;
    }
    let mut out: Vec<char> = Vec::new();
    let mut i = from;
    while i < to
        invariant
            from <= i <= to <= v@.len(),
            out@ == v@.subrange(from as int, i as int),
            forall|k: int| 0 <= k < out@.len() ==> is_word_char(#[trigger] out@[k]),
        decreases to - i,
    {
        let c = v[i];
        let cv = c as u32;
        let word = (97 <= cv && cv <= 122) || (65 <= cv && cv <= 90) || (48 <= cv && cv <= 57) || c
            == '_';
        if !word {
            proof {
                assert(v@.subrange(from as int, to as int)[i - from] == c);
            }
            return None;
        }
        out.push(c);
        proof {
            assert(v@.subrange(from as int, i + 1) =~= v@.subrange(from as int, i as int).push(
                v@[i as int],
            ));
        }
        i = i + 1;
    }
    proof {
        assert(out@ =~= v@.subrange(from as int, to as int));
    }
    Some(string_from_chars(&out))
}

/// Rendering distributes over concatenation.
pub proof fn lemma_render_c_concat(a: Seq<CTok>, b: Seq<CTok>)
    ensures
        render_c(a + b) == render_c(a) + render_c(b),
    decreases a.len(),
{
    if a.len() == 0 {
        assert(a + b =~= b);
        assert(render_c(a) + render_c(b) =~= render_c(b));
    } else {
        assert((a + b).skip(1) =~= a.skip(1) + b);
        lemma_render_c_concat(a.skip(1), b);
        assert((a + b)[0] == a[0]);
        assert(render_c_tok(a[0]) + (render_c(a.skip(1)) + render_c(b)) =~= (render_c_tok(a[0])
            + render_c(a.skip(1))) + render_c(b));
    }
}

/// Rendering distributes over concatenation.
pub proof fn lemma_render_d_concat(a: Seq<DTok>, b: Seq<DTok>)
    ensures
        render_d(a + b) == render_d(a) + render_d(b),
    decreases a.len(),
{
    if a.len() == 0 {
        assert(a + b =~= b);
        assert(render_d(a) + render_d(b) =~= render_d(b));
    } else {
        assert((a + b).skip(1) =~= a.skip(1) + b);
        lemma_render_d_concat(a.skip(1), b);
        assert((a + b)[0] == a[0]);
        assert(render_d_tok(a[0]) + (render_d(a.skip(1)) + render_d(b)) =~= (render_d_tok(a[0])
            + render_d(a.skip(1))) + render_d(b));
    }
}

/// Renders a canonical token list to text.
pub fn render_c_exec(ts: &Vec<CTokE>) -> (out: Vec<char>)
    ensures
        out@ == render_c(ctoks_view(ts@)),
{
    let n = ts.len();
    let mut out: Vec<char> = Vec::new();
    let mut i: usize = 0;
    proof {
        assert(ctoks_view(ts@).take(0) =~= Seq::<CTok>::empty());
    }
    while i < n
        invariant
            i <= n,
            n == ts@.len(),
            out@ == render_c(ctoks_view(ts@).take(i as int)),
        decreases n - i,
    {
        let ghost pre = out@;
        let ghost tv = ctoks_view(ts@);
        match &ts[i] {
            CTokE::Open(name) => {
                out.push('<');
                let mut nc = chars_of(name.as_str());
                out.append(&mut nc);
                out.push('>');
                proof {
                    assert(out@ =~= pre + render_c_tok(tv[i as int]));
                }
            },
            CTokE::Close(name) => {
                out.push('<');
                out.push('/');
                let mut nc = chars_of(name.as_str());
                out.append(&mut nc);
                out.push('>');
                proof {
                    assert(out@ =~= pre + render_c_tok(tv[i as int]));
                }
            },
            CTokE::Text(x) => {
                let mut xc = chars_of(x.as_str());
                out.append(&mut xc);
                proof {
                    assert(out@ =~= pre + render_c_tok(tv[i as int]));
                }
            },
        }
        proof {
            assert(tv.take(i + 1) =~= tv.take(i as int) + seq![tv[i as int]]);
            lemma_render_c_concat(tv.take(i as int), seq![tv[i as int]]);
            assert(seq![tv[i as int]].skip(1) =~= Seq::<CTok>::empty());
            assert(render_c(Seq::<CTok>::empty()) =~= Seq::<char>::empty());
            assert(seq![tv[i as int]][0] == tv[i as int]);
            assert(render_c(seq![tv[i as int]]) =~= render_c_tok(tv[i as int]));
        }
        i = i + 1;
    }
    proof {
        assert(ctoks_view(ts@).take(n as int) =~= ctoks_view(ts@));
    }
    out
}

/// Renders an illegal-dialect token list to text.
pub fn render_d_exec(ts: &Vec<DTokE>) -> (out: Vec<char>)
    ensures
        out@ == render_d(dtoks_view(ts@)),
{
    let n = ts.len();
    let mut out: Vec<char> = Vec::new();
    let mut i: usize = 0;
    proof {
        assert(dtoks_view(ts@).take(0) =~= Seq::<DTok>::empty());
    }
    while i < n
        invariant
            i <= n,
            n == ts@.len(),
            out@ == render_d(dtoks_view(ts@).take(i as int)),
        decreases n - i,
    {
        let ghost pre = out@;
        let ghost tv = dtoks_view(ts@);
        match &ts[i] {
            DTokE::Open(w, name) => {
                out.push('<');
                let mut wc = chars_of(w.as_str());
                out.append(&mut wc);
                out.push(':');
                out.push(' ');
                let mut nc = chars_of(name.as_str());
                out.append(&mut nc);
                out.push(' ');
                out.push('>');
                proof {
                    assert(out@ =~= pre + render_d_tok(tv[i as int]));
                }
            },
            DTokE::Close(w) => {
                out.push('<');
                out.push('/');
                let mut wc = chars_of(w.as_str());
                out.append(&mut wc);
                out.push('>');
                proof {
                    assert(out@ =~= pre + render_d_tok(tv[i as int]));
                }
            },
            DTokE::Text(x) => {
                let mut xc = chars_of(x.as_str());
                out.append(&mut xc);
                proof {
                    assert(out@ =~= pre + render_d_tok(tv[i as int]));
                }
            },
        }
        proof {
            assert(tv.take(i + 1) =~= tv.take(i as int) + seq![tv[i as int]]);
            lemma_render_d_concat(tv.take(i as int), seq![tv[i as int]]);
            assert(seq![tv[i as int]].skip(1) =~= Seq::<DTok>::empty());
            assert(render_d(Seq::<DTok>::empty()) =~= Seq::<char>::empty());
            assert(seq![tv[i as int]][0] == tv[i as int]);
            assert(render_d(seq![tv[i as int]]) =~= render_d_tok(tv[i as int]));
        }
        i = i + 1;
    }
    proof {
        assert(dtoks_view(ts@).take(n as int) =~= dtoks_view(ts@));
    }
    out
}

/// Scans canonical-dialect text into executable tokens.
#[verifier::loop_isolation(false)]
#[verifier::rlimit(100)]
pub fn scan_c_exec(v: &Vec<char>) -> (r: Result<Vec<CTokE>, PlaymissionError>)
    ensures
        match r {
            Ok(ts) => scan_c(v@) == Some(ctoks_view(ts@)),
            Err(e) => scan_c(v@) is None && e matches PlaymissionError::MalformedStructure(_),
        },
{
    let n = v.len();
    let mut acc: Vec<CTokE> = Vec::new();
    let mut pos: usize = 0;
    proof {
        assert(v@.skip(0) =~= v@);
    }
    while pos < n
        invariant
            pos <= n,
            n == v@.len(),
            match scan_c(v@.skip(pos as int)) {
                Some(tail) => scan_c(v@) == Some(ctoks_view(acc@) + tail),
                None => scan_c(v@) is None,
            },
        decreases n - pos,
    {
        let ghost s = v@.skip(pos as int);
        let ghost accpre = ctoks_view(acc@);
        proof {
            assert(s[0] == v@[pos as int]);
        }
        if v[pos] == '<' {
            let j = match find_char_exec(v, '>', pos + 1) {
                Some(j) => j,
                None => {
                    proof {
                        lemma_find_char_skip(v@, pos as int, '>', 1);
                    }
                    return Err(PlaymissionError::MalformedStructure(String::from_str(
                        "unterminated tag",
                    )));
                },
            };
            proof {
                lemma_find_char_skip(v@, pos as int, '>', 1);
                assert(find_char(s, '>', 1) == j - pos);
                assert(v@.subrange(pos + 1, j as int) =~= s.subrange(1, j - pos));
            }
            let tok: CTokE = if v[pos + 1] == '/' {
                proof {
                    assert(s.subrange(1, j - pos)[0] == '/');
                    assert(v@.subrange(pos + 2, j as int) =~= s.subrange(1, j - pos).skip(1));
                }
                match word_of(v, pos + 2, j) {
                    Some(name) => CTokE::Close(name),
                    None => {
                        return Err(PlaymissionError::MalformedStructure(String::from_str(
                            "malformed closing tag",
                        )));
                    },
                }
            } else {
                proof {
                    assert(j - pos >= 1);
                    if j == pos + 1 {
                        assert(!is_word(s.subrange(1, j - pos)));
                    } else {
                        assert(s.subrange(1, j - pos)[0] == v@[pos + 1]);
                    }
                }
                match word_of(v, pos + 1, j) {
                    Some(name) => CTokE::Open(name),
                    None => {
                        return Err(PlaymissionError::MalformedStructure(String::from_str(
                            "malformed opening tag",
                        )));
                    },
                }
            };
            let ghost tokv = tok@;
            acc.push(tok);
            proof {
                assert(v@.skip(j + 1) =~= s.skip(j - pos + 1));
                assert(scan_c(s) == cons_c(tokv, scan_c(v@.skip(j + 1))));
                assert(ctoks_view(acc@) =~= accpre.push(tokv));
                if scan_c(v@.skip(j + 1)) is Some {
                    let tail2 = scan_c(v@.skip(j + 1))->Some_0;
                    assert(accpre + (seq![tokv] + tail2) =~= ctoks_view(acc@) + tail2);
                }
            }
            pos = j + 1;
        } else {
            let (tok, newpos): (CTokE, usize) = match find_char_exec(v, '<', pos + 1) {
                Some(j) => {
                    proof {
                        lemma_find_char_skip(v@, pos as int, '<', 1);
                        assert(find_char(s, '<', 1) == j - pos);
                        assert(v@.subrange(pos as int, j as int) =~= s.take(j - pos));
                    }
                    let mut chunk: Vec<char> = Vec::new();
                    let mut k = pos;
                    while k < j
                        invariant
                            pos <= k <= j,
                            chunk@ == v@.subrange(pos as int, k as int),
                        decreases j - k,
                    {
                        chunk.push(v[k]);
                        proof {
                            assert(v@.subrange(pos as int, k + 1) =~= v@.subrange(
                                pos as int,
                                k as int,
                            ).push(v@[k as int]));
                        }
                        k = k + 1;
                    }
                    (CTokE::Text(string_from_chars(&chunk)), j)
                },
                None => {
                    proof {
                        lemma_find_char_skip(v@, pos as int, '<', 1);
                        assert(find_char(s, '<', 1) == -1);
                        assert(v@.subrange(pos as int, n as int) =~= s);
                    }
                    let mut chunk: Vec<char> = Vec::new();
                    let mut k = pos;
                    while k < n
                        invariant
                            pos <= k <= n,
                            chunk@ == v@.subrange(pos as int, k as int),
                        decreases n - k,
                    {
                        chunk.push(v[k]);
                        proof {
                            assert(v@.subrange(pos as int, k + 1) =~= v@.subrange(
                                pos as int,
                                k as int,
                            ).push(v@[k as int]));
                        }
                        k = k + 1;
                    }
                    (CTokE::Text(string_from_chars(&chunk)), n)
                },
            };
            let ghost tokv = tok@;
            acc.push(tok);
            proof {
                if newpos < n {
                    assert(v@.skip(newpos as int) =~= s.skip(newpos - pos));
                    assert(scan_c(s) == cons_c(tokv, scan_c(v@.skip(newpos as int))));
                } else {
                    assert(v@.skip(newpos as int) =~= Seq::<char>::empty());
                    assert(scan_c(s) == cons_c(tokv, Some(Seq::<CTok>::empty())));
                }
                assert(ctoks_view(acc@) =~= accpre.push(tokv));
                if scan_c(v@.skip(newpos as int)) is Some {
                    let tail2 = scan_c(v@.skip(newpos as int))->Some_0;
                    assert(accpre + (seq![tokv] + tail2) =~= ctoks_view(acc@) + tail2);
                }
            }
            pos = newpos;
        }
    }
    proof {
        assert(v@.skip(n as int) =~= Seq::<char>::empty());
        assert(scan_c(v@.skip(n as int)) == Some(Seq::<CTok>::empty()));
        assert(ctoks_view(acc@) + Seq::<CTok>::empty() =~= ctoks_view(acc@));
    }
    Ok(acc)
}

/// Scans illegal-dialect text into executable tokens.
#[verifier::loop_isolation(false)]
#[verifier::rlimit(100)]
pub fn scan_d_exec(v: &Vec<char>) -> (r: Result<Vec<DTokE>, PlaymissionError>)
    ensures
        match r {
            Ok(ts) => scan_d(v@) == Some(dtoks_view(ts@)),
            Err(e) => scan_d(v@) is None && e matches PlaymissionError::MalformedStructure(_),
        },
{
    let n = v.len();
    let mut acc: Vec<DTokE> = Vec::new();
    let mut pos: usize = 0;
    proof {
        assert(v@.skip(0) =~= v@);
    }
    while pos < n
        invariant
            pos <= n,
            n == v@.len(),
            match scan_d(v@.skip(pos as int)) {
                Some(tail) => scan_d(v@) == Some(dtoks_view(acc@) + tail),
                None => scan_d(v@) is None,
            },
        decreases n - pos,
    {
        let ghost s = v@.skip(pos as int);
        let ghost accpre = dtoks_view(acc@);
        proof {
            assert(s[0] == v@[pos as int]);
        }
        if v[pos] == '<' {
            let j = match find_char_exec(v, '>', pos + 1) {
                Some(j) => j,
                None => {
                    proof {
                        lemma_find_char_skip(v@, pos as int, '>', 1);
                    }
                    return Err(PlaymissionError::MalformedStructure(String::from_str(
                        "unterminated tag",
                    )));
                },
            };
            let ghost inner = s.subrange(1, j - pos);
            proof {
                lemma_find_char_skip(v@, pos as int, '>', 1);
                assert(find_char(s, '>', 1) == j - pos);
                assert(v@.subrange(pos + 1, j as int) =~= inner);
            }
            let tok: DTokE = if v[pos + 1] == '/' {
                proof {
                    assert(inner[0] == '/');
                    assert(v@.subrange(pos + 2, j as int) =~= inner.skip(1));
                }
                match word_of(v, pos + 2, j) {
                    Some(w) => DTokE::Close(w),
                    None => {
                        return Err(PlaymissionError::MalformedStructure(String::from_str(
                            "malformed closing tag",
                        )));
                    },
                }
            } else {
                // an opening tag must read `<Wrapper: Name >`
                let ci = {
                    let mut k = pos + 1;
                    let mut found: Option<usize> = None;
                    while k < j
                        invariant
                            pos + 1 <= k <= j,
                            found is None,
                            forall|m: int| pos + 1 <= m < k ==> v@[m] != ':',
                        decreases j - k,
                    {
                        if v[k] == ':' {
                            found = Some(k);
                            break;
                        }
                        k = k + 1;
                    }
                    found
                };
                let ci = match ci {
                    Some(ci) => ci,
                    None => {
                        proof {
                            lemma_find_char_found(inner, ':', 0);
                            if find_char(inner, ':', 0) >= 0 {
                                let f = find_char(inner, ':', 0);
                                assert(inner[f] == ':');
                                assert(inner[f] == v@[pos + 1 + f]);
                            }
                            assert(find_char(inner, ':', 0) < 1);
                        }
                        return Err(PlaymissionError::MalformedStructure(String::from_str(
                            "opening tag without a wrapper word",
                        )));
                    },
                };
                proof {
                    assert(inner[ci - (pos + 1)] == v@[ci as int]);
                    assert forall|m: int| 0 <= m < ci - (pos + 1) implies inner[m] != ':' by {
                        assert(inner[m] == v@[pos + 1 + m]);
                    }
                    lemma_find_char_at(inner, ':', 0, ci - (pos + 1));
                }
                if ci == pos + 1 {
                    proof {
                        assert(find_char(inner, ':', 0) < 1);
                    }
                    return Err(PlaymissionError::MalformedStructure(String::from_str(
                        "opening tag without a wrapper word",
                    )));
                }
                proof {
                    assert(v@.subrange(pos + 1, ci as int) =~= inner.take(ci - (pos + 1)));
                }
                let w = match word_of(v, pos + 1, ci) {
                    Some(w) => w,
                    None => {
                        return Err(PlaymissionError::MalformedStructure(String::from_str(
                            "wrapper is not a word",
                        )));
                    },
                };
                let ghost cii = ci - (pos + 1);
                if !(ci + 1 < j && v[ci + 1] == ' ') {
                    proof {
                        assert(inner.len() >= cii + 4 ==> inner[cii + 1] == v@[ci + 1]);
                    }
                    return Err(PlaymissionError::MalformedStructure(String::from_str(
                        "opening tag without a spaced name",
                    )));
                }
                if !(j >= 1 && v[j - 1] == ' ' && j - 1 >= ci + 2) {
                    proof {
                        assert(inner.len() >= cii + 4 ==> inner[inner.len() - 1] == v@[j - 1]);
                        if inner.len() >= cii + 4 && inner[cii + 1] == ' ' && inner[
                            inner.len() - 1
                        ] == ' ' {
                            assert(j - 1 >= ci + 2);
                        }
                    }
                    return Err(PlaymissionError::MalformedStructure(String::from_str(
                        "opening tag without a spaced name",
                    )));
                }
                proof {
                    assert(inner[cii + 1] == v@[ci + 1]);
                    assert(inner[inner.len() - 1] == v@[j - 1]);
                    assert(v@.subrange(ci + 2, j - 1) =~= inner.subrange(cii + 2, inner.len() - 1));
                }
                match word_of(v, ci + 2, j - 1) {
                    Some(name) => DTokE::Open(w, name),
                    None => {
                        return Err(PlaymissionError::MalformedStructure(String::from_str(
                            "element name is not a word",
                        )));
                    },
                }
            };
            let ghost tokv = tok@;
            acc.push(tok);
            proof {
                assert(v@.skip(j + 1) =~= s.skip(j - pos + 1));
                assert(scan_d(s) == cons_d(tokv, scan_d(v@.skip(j + 1))));
                assert(dtoks_view(acc@) =~= accpre.push(tokv));
                if scan_d(v@.skip(j + 1)) is Some {
                    let tail2 = scan_d(v@.skip(j + 1))->Some_0;
                    assert(accpre + (seq![tokv] + tail2) =~= dtoks_view(acc@) + tail2);
                }
            }
            pos = j + 1;
        } else {
            let (tok, newpos): (DTokE, usize) = match find_char_exec(v, '<', pos + 1) {
                Some(j) => {
                    proof {
                        lemma_find_char_skip(v@, pos as int, '<', 1);
                        assert(find_char(s, '<', 1) == j - pos);
                        assert(v@.subrange(pos as int, j as int) =~= s.take(j - pos));
                    }
                    let mut chunk: Vec<char> = Vec::new();
                    let mut k = pos;
                    while k < j
                        invariant
                            pos <= k <= j,
                            chunk@ == v@.subrange(pos as int, k as int),
                        decreases j - k,
                    {
                        chunk.push(v[k]);
                        proof {
                            assert(v@.subrange(pos as int, k + 1) =~= v@.subrange(
                                pos as int,
                                k as int,
                            ).push(v@[k as int]));
                        }
                        k = k + 1;
                    }
                    (DTokE::Text(string_from_chars(&chunk)), j)
                },
                None => {
                    proof {
                        lemma_find_char_skip(v@, pos as int, '<', 1);
                        assert(find_char(s, '<', 1) == -1);
                        assert(v@.subrange(pos as int, n as int) =~= s);
                    }
                    let mut chunk: Vec<char> = Vec::new();
                    let mut k = pos;
                    while k < n
                        invariant
                            pos <= k <= n,
                            chunk@ == v@.subrange(pos as int, k as int),
                        decreases n - k,
                    {
                        chunk.push(v[k]);
                        proof {
                            assert(v@.subrange(pos as int, k + 1) =~= v@.subrange(
                                pos as int,
                                k as int,
                            ).push(v@[k as int]));
                        }
                        k = k + 1;
                    }
                    (DTokE::Text(string_from_chars(&chunk)), n)
                },
            };
            let ghost tokv = tok@;
            acc.push(tok);
            proof {
                if newpos < n {
                    assert(v@.skip(newpos as int) =~= s.skip(newpos - pos));
                    assert(scan_d(s) == cons_d(tokv, scan_d(v@.skip(newpos as int))));
                } else {
                    assert(v@.skip(newpos as int) =~= Seq::<char>::empty());
                    assert(scan_d(s) == cons_d(tokv, Some(Seq::<DTok>::empty())));
                }
                assert(dtoks_view(acc@) =~= accpre.push(tokv));
                if scan_d(v@.skip(newpos as int)) is Some {
                    let tail2 = scan_d(v@.skip(newpos as int))->Some_0;
                    assert(accpre + (seq![tokv] + tail2) =~= dtoks_view(acc@) + tail2);
                }
            }
            pos = newpos;
        }
    }
    proof {
        assert(v@.skip(n as int) =~= Seq::<char>::empty());
        assert(scan_d(v@.skip(n as int)) == Some(Seq::<DTok>::empty()));
        assert(dtoks_view(acc@) + Seq::<DTok>::empty() =~= dtoks_view(acc@));
    }
    Ok(acc)
}

/// Whatever a scanner accepts is well formed.
pub proof fn lemma_scan_c_wf(s: Seq<char>)
    requires
        scan_c(s) is Some,
    ensures
        wf_ctoks(scan_c(s)->Some_0),
    decreases s.len(),
{
    let ts = scan_c(s)->Some_0;
    if s.len() == 0 {
    } else if s[0] == '<' {
        let j = find_char(s, '>', 1);
        lemma_scan_c_wf(s.skip(j + 1));
        let tail = scan_c(s.skip(j + 1))->Some_0;
        assert forall|i: int| 0 <= i < ts.len() implies match #[trigger] ts[i] {
            CTok::Open(n) => is_word(n),
            CTok::Close(n) => is_word(n),
            CTok::Text(x) => wf_text(x) && (i + 1 < ts.len() ==> !(ts[i + 1] is Text)),
        } by {
            if i > 0 {
                assert(ts[i] == tail[i - 1]);
                assert(i + 1 < ts.len() ==> ts[i + 1] == tail[i]);
            }
        }
    } else {
        let j = find_char(s, '<', 1);
        lemma_find_char_found(s, '<', 1);
        if j < 1 || j > s.len() {
            assert(wf_text(s));
            assert(ts =~= seq![CTok::Text(s)]);
        } else {
            lemma_scan_c_wf(s.skip(j));
            let tail = scan_c(s.skip(j))->Some_0;
            assert(wf_text(s.take(j))) by {
                assert(s.take(j)[0] == s[0]);
                assert(forall|k: int| 0 <= k < j ==> s.take(j)[k] == s[k]);
            }
            if tail.len() > 0 {
                assert(s.skip(j)[0] == s[j]);
                assert(s[j] == '<');
                assert(!(tail[0] is Text));
            }
            assert forall|i: int| 0 <= i < ts.len() implies match #[trigger] ts[i] {
                CTok::Open(n) => is_word(n),
                CTok::Close(n) => is_word(n),
                CTok::Text(x) => wf_text(x) && (i + 1 < ts.len() ==> !(ts[i + 1] is Text)),
            } by {
                if i > 0 {
                    assert(ts[i] == tail[i - 1]);
                    assert(i + 1 < ts.len() ==> ts[i + 1] == tail[i]);
                } else {
                    assert(ts.len() > 1 ==> ts[1] == tail[0]);
                }
            }
        }
    }
}

/// Whatever a scanner accepts is well formed.
pub proof fn lemma_scan_d_wf(s: Seq<char>)
    requires
        scan_d(s) is Some,
    ensures
        wf_dtoks(scan_d(s)->Some_0),
    decreases s.len(),
{
    let ts = scan_d(s)->Some_0;
    if s.len() == 0 {
    } else if s[0] == '<' {
        let j = find_char(s, '>', 1);
        lemma_scan_d_wf(s.skip(j + 1));
        let tail = scan_d(s.skip(j + 1))->Some_0;
        assert forall|i: int| 0 <= i < ts.len() implies match #[trigger] ts[i] {
            DTok::Open(w, n) => is_word(w) && is_word(n),
            DTok::Close(w) => is_word(w),
            DTok::Text(x) => wf_text(x) && (i + 1 < ts.len() ==> !(ts[i + 1] is Text)),
        } by {
            if i > 0 {
                assert(ts[i] == tail[i - 1]);
                assert(i + 1 < ts.len() ==> ts[i + 1] == tail[i]);
            }
        }
    } else {
        let j = find_char(s, '<', 1);
        lemma_find_char_found(s, '<', 1);
        if j < 1 || j > s.len() {
            assert(wf_text(s));
            assert(ts =~= seq![DTok::Text(s)]);
        } else {
            lemma_scan_d_wf(s.skip(j));
            let tail = scan_d(s.skip(j))->Some_0;
            assert(wf_text(s.take(j))) by {
                assert(s.take(j)[0] == s[0]);
                assert(forall|k: int| 0 <= k < j ==> s.take(j)[k] == s[k]);
            }
            if tail.len() > 0 {
                assert(s.skip(j)[0] == s[j]);
                assert(s[j] == '<');
                assert(!(tail[0] is Text));
            }
            assert forall|i: int| 0 <= i < ts.len() implies match #[trigger] ts[i] {
                DTok::Open(w, n) => is_word(w) && is_word(n),
                DTok::Close(w) => is_word(w),
                DTok::Text(x) => wf_text(x) && (i + 1 < ts.len() ==> !(ts[i + 1] is Text)),
            } by {
                if i > 0 {
                    assert(ts[i] == tail[i - 1]);
                    assert(i + 1 < ts.len() ==> ts[i + 1] == tail[i]);
                } else {
                    assert(ts.len() > 1 ==> ts[1] == tail[0]);
                }
            }
        }
    }
}

} // verus!
