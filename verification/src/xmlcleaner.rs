//! The tag normalizer: a bidirectional text transform between the
//! archive's illegal tag dialect and canonical, parseable tags.
//!
//! `clean` rewrites `<Wrapper: Name >…</Wrapper>` into `<Name>…</Name>`,
//! tracking nesting with an explicit stack of open tags, so nested
//! occurrences of the same wrapper close correctly. `dirty` is the exact
//! inverse: it re-wraps each element, choosing the structured-object
//! wrapper for the fixed vocabulary of object element names and the
//! scalar-attribute wrapper for everything else. Wrapping a normalized
//! document restores the original text exactly; this module proves it.
use vstd::prelude::*;
use crate::error::PlaymissionError;
use crate::text::{chars_of, string_from_chars};
use crate::xmltok::{CTok, DTok, CTokE, DTokE, ctoks_view, dtoks_view, scan_c, scan_d, render_c,
    render_d, scan_c_exec, scan_d_exec, render_c_exec, render_d_exec, is_word, wf_ctoks, wf_dtoks,
    wf_text, lemma_scan_c_wf, lemma_scan_render_c, lemma_scan_render_d};

verus! {

/// The structured-object wrapper word.
pub open spec fn object_wrapper() -> Seq<char> {
    "OBJECT"@
}

/// The scalar-attribute wrapper word.
pub open spec fn attr_wrapper() -> Seq<char> {
    "ATTR"@
}

/// The fixed vocabulary of element names that denote structured
/// sub-objects rather than scalar attributes.
pub open spec fn is_object_name(n: Seq<char>) -> bool {
    ||| n == "ACTIVEPROP"@
    ||| n == "CHARACTER"@
    ||| n == "DOOR"@
    ||| n == "GAME"@
    ||| n == "LOCATION"@
    ||| n == "MEDIA"@
    ||| n == "PICKUP"@
    ||| n == "PLAYER"@
    ||| n == "PROP"@
    ||| n == "PROPERTIES"@
    ||| n == "PROPERTY"@
    ||| n == "RULE"@
    ||| n == "SPECIALEFFECT"@
    ||| n == "TRIGGER"@
    ||| n == "USERDATA"@
}

/// The wrapper word an element of this name is written with.
pub open spec fn wrapper_of(n: Seq<char>) -> Seq<char> {
    if is_object_name(n) {
        object_wrapper()
    } else {
        attr_wrapper()
    }
}

/// Decides membership in the object-name vocabulary.
pub fn is_object_name_exec(n: &String) -> (r: bool)
    ensures
        r == is_object_name(n@),
{
    *n == String::from_str("ACTIVEPROP") || *n == String::from_str("CHARACTER") || *n
        == String::from_str("DOOR") || *n == String::from_str("GAME") || *n == String::from_str(
        "LOCATION",
    ) || *n == String::from_str("MEDIA") || *n == String::from_str("PICKUP") || *n
        == String::from_str("PLAYER") || *n == String::from_str("PROP") || *n == String::from_str(
        "PROPERTIES",
    ) || *n == String::from_str("PROPERTY") || *n == String::from_str("RULE") || *n
        == String::from_str("SPECIALEFFECT") || *n == String::from_str("TRIGGER") || *n
        == String::from_str("USERDATA")
}

/// Returns the wrapper word for an element name.
pub fn wrapper_of_exec(n: &String) -> (r: String)
    ensures
        r@ == wrapper_of(n@),
{
    if is_object_name_exec(n) {
        String::from_str("OBJECT")
    } else {
        String::from_str("ATTR")
    }
}

// ---------------------------------------------------------------------
// The transforms, mathematically
// ---------------------------------------------------------------------
/// Rewrites illegal-dialect tokens into canonical ones, tracking open
/// tags on a stack of wrapper-and-name pairs. A closing tag must match
/// the innermost open wrapper; leftovers or mismatches produce nothing.
pub open spec fn clean_toks(ds: Seq<DTok>, stack: Seq<(Seq<char>, Seq<char>)>) -> Option<Seq<CTok>>
    decreases ds.len(),
{
    if ds.len() == 0 {
        if stack.len() == 0 {
            Some(Seq::empty())
        } else {
            None
        }
    } else {
        match ds[0] {
            DTok::Open(w, n) => match clean_toks(ds.skip(1), stack.push((w, n))) {
                Some(cs) => Some(seq![CTok::Open(n)] + cs),
                None => None,
            },
            DTok::Close(w) => {
                if stack.len() > 0 && stack.last().0 == w {
                    match clean_toks(ds.skip(1), stack.drop_last()) {
                        Some(cs) => Some(seq![CTok::Close(stack.last().1)] + cs),
                        None => None,
                    }
                } else {
                    None
                }
            },
            DTok::Text(x) => match clean_toks(ds.skip(1), stack) {
                Some(cs) => Some(seq![CTok::Text(x)] + cs),
                None => None,
            },
        }
    }
}

/// Rewrites canonical tokens into illegal-dialect ones, choosing each
/// element's wrapper from its name. A closing tag must match the
/// innermost open name; leftovers or mismatches produce nothing.
pub open spec fn dirty_toks(cs: Seq<CTok>, stack: Seq<Seq<char>>) -> Option<Seq<DTok>>
    decreases cs.len(),
{
    if cs.len() == 0 {
        if stack.len() == 0 {
            Some(Seq::empty())
        } else {
            None
        }
    } else {
        match cs[0] {
            CTok::Open(n) => match dirty_toks(cs.skip(1), stack.push(n)) {
                Some(ds) => Some(seq![DTok::Open(wrapper_of(n), n)] + ds),
                None => None,
            },
            CTok::Close(n) => {
                if stack.len() > 0 && stack.last() == n {
                    match dirty_toks(cs.skip(1), stack.drop_last()) {
                        Some(ds) => Some(seq![DTok::Close(wrapper_of(n))] + ds),
                        None => None,
                    }
                } else {
                    None
                }
            },
            CTok::Text(x) => match dirty_toks(cs.skip(1), stack) {
                Some(ds) => Some(seq![DTok::Text(x)] + ds),
                None => None,
            },
        }
    }
}

/// The whole normalization: scan the illegal dialect, rewrite, render.
pub open spec fn spec_clean(s: Seq<char>) -> Option<Seq<char>> {
    match scan_d(s) {
        Some(ds) => match clean_toks(ds, Seq::empty()) {
            Some(cs) => Some(render_c(cs)),
            None => None,
        },
        None => None,
    }
}

/// The whole inverse transform: scan canonical tags, re-wrap, render.
pub open spec fn spec_dirty(s: Seq<char>) -> Option<Seq<char>> {
    match scan_c(s) {
        Some(cs) => match dirty_toks(cs, Seq::empty()) {
            Some(ds) => Some(render_d(ds)),
            None => None,
        },
        None => None,
    }
}

// ---------------------------------------------------------------------
// The transforms, executably
// ---------------------------------------------------------------------
/// Model of an executable tag stack.
pub open spec fn pairs_view(v: Seq<(String, String)>) -> Seq<(Seq<char>, Seq<char>)> {
    Seq::new(v.len(), |i: int| (v[i].0@, v[i].1@))
}

/// Model of an executable name stack.
pub open spec fn names_view(v: Seq<String>) -> Seq<Seq<char>> {
    Seq::new(v.len(), |i: int| v[i]@)
}

/// Rewrites scanned illegal-dialect tokens into canonical tokens.
#[verifier::loop_isolation(false)]
pub fn clean_tokens(ds: &Vec<DTokE>) -> (r: Result<Vec<CTokE>, PlaymissionError>)
    ensures
        match r {
            Ok(cs) => clean_toks(dtoks_view(ds@), Seq::empty()) == Some(ctoks_view(cs@)),
            Err(e) => clean_toks(dtoks_view(ds@), Seq::empty()) is None && e
                matches PlaymissionError::NoMatchingTag(_),
        },
{
    let n = ds.len();
    let mut acc: Vec<CTokE> = Vec::new();
    let mut stack: Vec<(String, String)> = Vec::new();
    let mut i: usize = 0;
    proof {
        assert(dtoks_view(ds@).skip(0) =~= dtoks_view(ds@));
        assert(pairs_view(stack@) =~= Seq::<(Seq<char>, Seq<char>)>::empty());
    }
    while i < n
        invariant
            i <= n,
            n == ds@.len(),
            match clean_toks(dtoks_view(ds@).skip(i as int), pairs_view(stack@)) {
                Some(cs) => clean_toks(dtoks_view(ds@), Seq::empty()) == Some(
                    ctoks_view(acc@) + cs,
                ),
                None => clean_toks(dtoks_view(ds@), Seq::empty()) is None,
            },
        decreases n - i,
    {
        let ghost dtail = dtoks_view(ds@).skip(i as int);
        let ghost accpre = ctoks_view(acc@);
        let ghost stackpre = pairs_view(stack@);
        proof {
            assert(dtail[0] == dtoks_view(ds@)[i as int]);
            assert(dtail.skip(1) =~= dtoks_view(ds@).skip(i + 1));
        }
        match &ds[i] {
            DTokE::Open(w, name) => {
                stack.push((w.clone(), name.clone()));
                acc.push(CTokE::Open(name.clone()));
                proof {
                    assert(pairs_view(stack@) =~= stackpre.push((w@, name@)));
                    assert(ctoks_view(acc@) =~= accpre.push(CTok::Open(name@)));
                    if clean_toks(dtail.skip(1), pairs_view(stack@)) is Some {
                        let cs2 = clean_toks(dtail.skip(1), pairs_view(stack@))->Some_0;
                        assert(accpre + (seq![CTok::Open(name@)] + cs2) =~= ctoks_view(acc@) + cs2);
                    }
                }
            },
            DTokE::Close(w) => {
                if stack.len() == 0 {
                    proof {
                        assert(dtail[0] == DTok::Close(w@));
                        assert(pairs_view(stack@).len() == 0);
                        assert(clean_toks(dtail, pairs_view(stack@)) is None);
                    }
                    return Err(PlaymissionError::NoMatchingTag(w.clone()));
                }
                let (tw, tn) = match stack.pop() {
                    Some(p) => p,
                    None => {
                        return Err(PlaymissionError::NoMatchingTag(w.clone()));
                    },
                };
                proof {
                    assert(stackpre.last() == (tw@, tn@));
                }
                if !(tw == *w) {
                    proof {
                        assert(dtail[0] == DTok::Close(w@));
                        assert(stackpre.last().0 != w@);
                        assert(clean_toks(dtail, stackpre) is None);
                    }
                    return Err(PlaymissionError::NoMatchingTag(w.clone()));
                }
                acc.push(CTokE::Close(tn.clone()));
                proof {
                    assert(pairs_view(stack@) =~= stackpre.drop_last());
                    assert(ctoks_view(acc@) =~= accpre.push(CTok::Close(tn@)));
                    if clean_toks(dtail.skip(1), pairs_view(stack@)) is Some {
                        let cs2 = clean_toks(dtail.skip(1), pairs_view(stack@))->Some_0;
                        assert(accpre + (seq![CTok::Close(tn@)] + cs2) =~= ctoks_view(acc@) + cs2);
                    }
                }
            },
            DTokE::Text(x) => {
                acc.push(CTokE::Text(x.clone()));
                proof {
                    assert(ctoks_view(acc@) =~= accpre.push(CTok::Text(x@)));
                    if clean_toks(dtail.skip(1), pairs_view(stack@)) is Some {
                        let cs2 = clean_toks(dtail.skip(1), pairs_view(stack@))->Some_0;
                        assert(accpre + (seq![CTok::Text(x@)] + cs2) =~= ctoks_view(acc@) + cs2);
                    }
                }
            },
        }
        i = i + 1;
    }
    proof {
        assert(dtoks_view(ds@).skip(n as int) =~= Seq::<DTok>::empty());
    }
    if stack.len() > 0 {
        let name = stack[stack.len() - 1].1.clone();
        return Err(PlaymissionError::NoMatchingTag(name));
    }
    proof {
        assert(pairs_view(stack@) =~= Seq::<(Seq<char>, Seq<char>)>::empty());
        assert(ctoks_view(acc@) + Seq::<CTok>::empty() =~= ctoks_view(acc@));
    }
    Ok(acc)
}

/// Rewrites scanned canonical tokens into illegal-dialect tokens.
#[verifier::loop_isolation(false)]
pub fn dirty_tokens(cs: &Vec<CTokE>) -> (r: Result<Vec<DTokE>, PlaymissionError>)
    ensures
        match r {
            Ok(ds) => dirty_toks(ctoks_view(cs@), Seq::empty()) == Some(dtoks_view(ds@)),
            Err(e) => dirty_toks(ctoks_view(cs@), Seq::empty()) is None && e
                matches PlaymissionError::NoMatchingTag(_),
        },
{
    let n = cs.len();
    let mut acc: Vec<DTokE> = Vec::new();
    let mut stack: Vec<String> = Vec::new();
    let mut i: usize = 0;
    proof {
        assert(ctoks_view(cs@).skip(0) =~= ctoks_view(cs@));
        assert(names_view(stack@) =~= Seq::<Seq<char>>::empty());
    }
    while i < n
        invariant
            i <= n,
            n == cs@.len(),
            match dirty_toks(ctoks_view(cs@).skip(i as int), names_view(stack@)) {
                Some(ds) => dirty_toks(ctoks_view(cs@), Seq::empty()) == Some(
                    dtoks_view(acc@) + ds,
                ),
                None => dirty_toks(ctoks_view(cs@), Seq::empty()) is None,
            },
        decreases n - i,
    {
        let ghost ctail = ctoks_view(cs@).skip(i as int);
        let ghost accpre = dtoks_view(acc@);
        let ghost stackpre = names_view(stack@);
        proof {
            assert(ctail[0] == ctoks_view(cs@)[i as int]);
            assert(ctail.skip(1) =~= ctoks_view(cs@).skip(i + 1));
        }
        match &cs[i] {
            CTokE::Open(name) => {
                let w = wrapper_of_exec(name);
                stack.push(name.clone());
                acc.push(DTokE::Open(w, name.clone()));
                proof {
                    assert(names_view(stack@) =~= stackpre.push(name@));
                    assert(dtoks_view(acc@) =~= accpre.push(DTok::Open(wrapper_of(name@), name@)));
                    if dirty_toks(ctail.skip(1), names_view(stack@)) is Some {
                        let ds2 = dirty_toks(ctail.skip(1), names_view(stack@))->Some_0;
                        assert(accpre + (seq![DTok::Open(wrapper_of(name@), name@)] + ds2)
                            =~= dtoks_view(acc@) + ds2);
                    }
                }
            },
            CTokE::Close(name) => {
                if stack.len() == 0 {
                    proof {
                        assert(ctail[0] == CTok::Close(name@));
                        assert(names_view(stack@).len() == 0);
                        assert(dirty_toks(ctail, names_view(stack@)) is None);
                    }
                    return Err(PlaymissionError::NoMatchingTag(name.clone()));
                }
                let tn = match stack.pop() {
                    Some(p) => p,
                    None => {
                        return Err(PlaymissionError::NoMatchingTag(name.clone()));
                    },
                };
                proof {
                    assert(stackpre.last() == tn@);
                }
                if !(tn == *name) {
                    proof {
                        assert(ctail[0] == CTok::Close(name@));
                        assert(stackpre.last() != name@);
                        assert(dirty_toks(ctail, stackpre) is None);
                    }
                    return Err(PlaymissionError::NoMatchingTag(name.clone()));
                }
                let w = wrapper_of_exec(name);
                acc.push(DTokE::Close(w));
                proof {
                    assert(names_view(stack@) =~= stackpre.drop_last());
                    assert(dtoks_view(acc@) =~= accpre.push(DTok::Close(wrapper_of(name@))));
                    if dirty_toks(ctail.skip(1), names_view(stack@)) is Some {
                        let ds2 = dirty_toks(ctail.skip(1), names_view(stack@))->Some_0;
                        assert(accpre + (seq![DTok::Close(wrapper_of(name@))] + ds2) =~= dtoks_view(
                            acc@,
                        ) + ds2);
                    }
                }
            },
            CTokE::Text(x) => {
                acc.push(DTokE::Text(x.clone()));
                proof {
                    assert(dtoks_view(acc@) =~= accpre.push(DTok::Text(x@)));
                    if dirty_toks(ctail.skip(1), names_view(stack@)) is Some {
                        let ds2 = dirty_toks(ctail.skip(1), names_view(stack@))->Some_0;
                        assert(accpre + (seq![DTok::Text(x@)] + ds2) =~= dtoks_view(acc@) + ds2);
                    }
                }
            },
        }
        i = i + 1;
    }
    proof {
        assert(ctoks_view(cs@).skip(n as int) =~= Seq::<CTok>::empty());
    }
    if stack.len() > 0 {
        let name = stack[stack.len() - 1].clone();
        return Err(PlaymissionError::NoMatchingTag(name));
    }
    proof {
        assert(names_view(stack@) =~= Seq::<Seq<char>>::empty());
        assert(dtoks_view(acc@) + Seq::<DTok>::empty() =~= dtoks_view(acc@));
    }
    Ok(acc)
}

// ---------------------------------------------------------------------
// Wrapping a normalized document restores it
// ---------------------------------------------------------------------
/// Both wrapper words are tag words.
pub proof fn lemma_wrappers_are_words()
    ensures
        is_word(object_wrapper()),
        is_word(attr_wrapper()),
        forall|n: Seq<char>| is_word(#[trigger] wrapper_of(n)),
{
    reveal_strlit("OBJECT");
    reveal_strlit("ATTR");
    assert(is_word("OBJECT"@)) by {
        assert("OBJECT"@.len() == 6);
        assert(forall|i: int|
            0 <= i < 6 ==> crate::xmltok::is_word_char(#[trigger] "OBJECT"@[i]));
    }
    assert(is_word("ATTR"@)) by {
        assert("ATTR"@.len() == 4);
        assert(forall|i: int| 0 <= i < 4 ==> crate::xmltok::is_word_char(#[trigger] "ATTR"@[i]));
    }
}

/// Re-wrapping maps each token in place: an open tag gains its wrapper,
/// a close tag keeps only its wrapper, text passes through.
pub proof fn lemma_dirty_toks_shape(cs: Seq<CTok>, st: Seq<Seq<char>>)
    requires
        dirty_toks(cs, st) is Some,
    ensures
        dirty_toks(cs, st)->Some_0.len() == cs.len(),
        forall|i: int|
            0 <= i < cs.len() ==> match #[trigger] cs[i] {
                CTok::Open(n) => dirty_toks(cs, st)->Some_0[i] == DTok::Open(wrapper_of(n), n),
                CTok::Close(n) => dirty_toks(cs, st)->Some_0[i] == DTok::Close(wrapper_of(n)),
                CTok::Text(x) => dirty_toks(cs, st)->Some_0[i] == DTok::Text(x),
            },
    decreases cs.len(),
{
    let ds = dirty_toks(cs, st)->Some_0;
    if cs.len() > 0 {
        match cs[0] {
            CTok::Open(n) => {
                lemma_dirty_toks_shape(cs.skip(1), st.push(n));
            },
            CTok::Close(n) => {
                lemma_dirty_toks_shape(cs.skip(1), st.drop_last());
            },
            CTok::Text(x) => {
                lemma_dirty_toks_shape(cs.skip(1), st);
            },
        }
        assert forall|i: int| 0 <= i < cs.len() implies match #[trigger] cs[i] {
            CTok::Open(n) => ds[i] == DTok::Open(wrapper_of(n), n),
            CTok::Close(n) => ds[i] == DTok::Close(wrapper_of(n)),
            CTok::Text(x) => ds[i] == DTok::Text(x),
        } by {
            if i > 0 {
                assert(cs[i] == cs.skip(1)[i - 1]);
            }
        }
    }
}

/// Re-wrapping well-formed tokens yields well-formed tokens.
pub proof fn lemma_dirty_toks_wf(cs: Seq<CTok>, st: Seq<Seq<char>>)
    requires
        wf_ctoks(cs),
        dirty_toks(cs, st) is Some,
    ensures
        wf_dtoks(dirty_toks(cs, st)->Some_0),
{
    let ds = dirty_toks(cs, st)->Some_0;
    lemma_dirty_toks_shape(cs, st);
    lemma_wrappers_are_words();
    assert forall|i: int| 0 <= i < ds.len() implies match #[trigger] ds[i] {
        DTok::Open(w, n) => is_word(w) && is_word(n),
        DTok::Close(w) => is_word(w),
        DTok::Text(x) => wf_text(x) && (i + 1 < ds.len() ==> !(ds[i + 1] is Text)),
    } by {
        assert(match cs[i] {
            CTok::Open(n) => ds[i] == DTok::Open(wrapper_of(n), n),
            CTok::Close(n) => ds[i] == DTok::Close(wrapper_of(n)),
            CTok::Text(x) => ds[i] == DTok::Text(x),
        });
        if i + 1 < ds.len() {
            assert(match cs[i + 1] {
                CTok::Open(n) => ds[i + 1] == DTok::Open(wrapper_of(n), n),
                CTok::Close(n) => ds[i + 1] == DTok::Close(wrapper_of(n)),
                CTok::Text(x) => ds[i + 1] == DTok::Text(x),
            });
        }
    }
}

/// The open-tag stack of the normalizing direction that corresponds to a
/// stack of open names.
pub open spec fn wrap_stack(st: Seq<Seq<char>>) -> Seq<(Seq<char>, Seq<char>)> {
    Seq::new(st.len(), |i: int| (wrapper_of(st[i]), st[i]))
}

/// Normalizing undoes re-wrapping, token for token.
pub proof fn lemma_clean_of_dirty(cs: Seq<CTok>, st: Seq<Seq<char>>)
    requires
        dirty_toks(cs, st) is Some,
    ensures
        clean_toks(dirty_toks(cs, st)->Some_0, wrap_stack(st)) == Some(cs),
    decreases cs.len(),
{
    let ds = dirty_toks(cs, st)->Some_0;
    if cs.len() == 0 {
        assert(wrap_stack(st).len() == 0);
        assert(ds =~= Seq::<DTok>::empty());
        assert(cs =~= Seq::<CTok>::empty());
    } else {
        match cs[0] {
            CTok::Open(n) => {
                let ds1 = dirty_toks(cs.skip(1), st.push(n))->Some_0;
                lemma_clean_of_dirty(cs.skip(1), st.push(n));
                assert(ds == seq![DTok::Open(wrapper_of(n), n)] + ds1);
                assert(ds[0] == DTok::Open(wrapper_of(n), n));
                assert(ds.skip(1) =~= ds1);
                assert(wrap_stack(st).push((wrapper_of(n), n)) =~= wrap_stack(st.push(n)));
                assert(seq![CTok::Open(n)] + cs.skip(1) =~= cs);
            },
            CTok::Close(n) => {
                let ds1 = dirty_toks(cs.skip(1), st.drop_last())->Some_0;
                lemma_clean_of_dirty(cs.skip(1), st.drop_last());
                assert(ds == seq![DTok::Close(wrapper_of(n))] + ds1);
                assert(ds[0] == DTok::Close(wrapper_of(n)));
                assert(ds.skip(1) =~= ds1);
                assert(wrap_stack(st).len() == st.len());
                assert(wrap_stack(st).last() == (wrapper_of(n), n));
                assert(wrap_stack(st).drop_last() =~= wrap_stack(st.drop_last()));
                assert(seq![CTok::Close(n)] + cs.skip(1) =~= cs);
            },
            CTok::Text(x) => {
                let ds1 = dirty_toks(cs.skip(1), st)->Some_0;
                lemma_clean_of_dirty(cs.skip(1), st);
                assert(ds == seq![DTok::Text(x)] + ds1);
                assert(ds[0] == DTok::Text(x));
                assert(ds.skip(1) =~= ds1);
                assert(seq![CTok::Text(x)] + cs.skip(1) =~= cs);
            },
        }
    }
}

/// Law: on any document that the inverse transform produced, normalizing
/// and re-wrapping restores the document exactly: `dirty(clean(x)) == x`
/// whenever `x == dirty(c)` for some canonical text `c`.
pub proof fn lemma_dirty_clean_roundtrip(c: Seq<char>, x: Seq<char>)
    requires
        spec_dirty(c) == Some(x),
    ensures
        spec_clean(x) is Some,
        spec_dirty(spec_clean(x)->Some_0) == Some(x),
{
    let cs = scan_c(c)->Some_0;
    let ds = dirty_toks(cs, Seq::empty())->Some_0;
    lemma_scan_c_wf(c);
    lemma_dirty_toks_wf(cs, Seq::empty());
    lemma_scan_render_d(ds);
    assert(scan_d(x) == Some(ds));
    lemma_clean_of_dirty(cs, Seq::empty());
    assert(wrap_stack(Seq::empty()) =~= Seq::<(Seq<char>, Seq<char>)>::empty());
    assert(clean_toks(ds, Seq::empty()) == Some(cs));
    assert(spec_clean(x) == Some(render_c(cs)));
    lemma_scan_render_c(cs);
    assert(scan_c(render_c(cs)) == Some(cs));
    assert(spec_dirty(render_c(cs)) == Some(render_d(ds)));
}

/// Normalizes illegal-dialect text into canonical tags. Malformed or
/// unbalanced tags are an error; nothing is silently dropped.
pub fn clean(s: &str) -> (r: Result<String, PlaymissionError>)
    ensures
        match spec_clean(s@) {
            Some(t) => r matches Ok(x) && x@ == t,
            None => r is Err,
        },
{
    let v = chars_of(s);
    let ds = scan_d_exec(&v)?;
    let cs = clean_tokens(&ds)?;
    let out = render_c_exec(&cs);
    Ok(string_from_chars(&out))
}

/// Re-wraps canonical tags into the illegal dialect. Malformed or
/// unbalanced tags are an error; nothing is silently dropped.
pub fn dirty(s: &str) -> (r: Result<String, PlaymissionError>)
    ensures
        match spec_dirty(s@) {
            Some(t) => r matches Ok(x) && x@ == t,
            None => r is Err,
        },
{
    let v = chars_of(s);
    let cs = scan_c_exec(&v)?;
    let ds = dirty_tokens(&cs)?;
    let out = render_d_exec(&ds);
    Ok(string_from_chars(&out))
}

} // verus!
