//! The datafile format: plain text, one `Key = Value` pair per non-blank
//! line. Every parsed value is a plain string; types come later from the
//! kind's default template.
use vstd::prelude::*;
use crate::assoc::spec_has_key;
use crate::error::PlaymissionError;
use crate::properties::{Properties, Property, PropertyV, EntryV, entries_values_wf};
use crate::text::string_from_chars;
use crate::value::{Value, ValueV};
use crate::xmltok::{find_char, lemma_find_char_at, lemma_find_char_found, lemma_find_char_skip};

verus! {

/// Strips one trailing carriage return.
pub open spec fn strip_cr(l: Seq<char>) -> Seq<char> {
    if l.len() > 0 && l.last() == '\r' {
        l.drop_last()
    } else {
        l
    }
}

/// The lines of a text, split on line feeds, each stripped of one
/// trailing carriage return. A trailing line feed opens no extra line.
pub open spec fn spec_lines(s: Seq<char>) -> Seq<Seq<char>>
    decreases s.len(),
{
    if s.len() == 0 {
        Seq::empty()
    } else {
        let j = find_char(s, '\n', 0);
        if j < 0 || j >= s.len() {
            seq![strip_cr(s)]
        } else {
            seq![strip_cr(s.take(j))] + spec_lines(s.skip(j + 1))
        }
    }
}

/// First index where the ` = ` separator begins, or -1.
pub open spec fn find_sep(l: Seq<char>, from: int) -> int
    decreases l.len() - from,
{
    if from < 0 || from + 3 > l.len() {
        -1
    } else if l[from] == ' ' && l[from + 1] == '=' && l[from + 2] == ' ' {
        from
    } else {
        find_sep(l, from + 1)
    }
}

/// One parsed line: the key before the first separator and the value
/// after it, or the malformed line itself.
pub open spec fn spec_split_line(l: Seq<char>) -> Result<(Seq<char>, Seq<char>), Seq<char>> {
    let i = find_sep(l, 0);
    if i < 0 {
        Err(l)
    } else {
        Ok((l.take(i), l.skip(i + 3)))
    }
}

/// Folds datafile lines into string-typed property entries, skipping
/// blank lines. A line without the separator or a repeated key aborts
/// the parse with that line or key.
pub open spec fn spec_df_lines(acc: Seq<EntryV>, lines: Seq<Seq<char>>) -> Result<
    Seq<EntryV>,
    Seq<char>,
>
    decreases lines.len(),
{
    if lines.len() == 0 {
        Ok(acc)
    } else if lines[0].len() == 0 {
        spec_df_lines(acc, lines.skip(1))
    } else {
        match spec_split_line(lines[0]) {
            Ok(p) => if spec_has_key(acc, p.0) {
                Err(p.0)
            } else {
                spec_df_lines(
                    acc.push((p.0, PropertyV { value: ValueV::String(p.1), flags: None })),
                    lines.skip(1),
                )
            },
            Err(e) => Err(e),
        }
    }
}

/// The whole parse of a datafile text.
pub open spec fn spec_datafile(s: Seq<char>) -> Result<Seq<EntryV>, Seq<char>> {
    spec_df_lines(Seq::empty(), spec_lines(s))
}

/// Every parsed datafile entry is a plain string value.
pub proof fn lemma_df_lines_values_wf(acc: Seq<EntryV>, lines: Seq<Seq<char>>)
    requires
        spec_df_lines(acc, lines) is Ok,
        entries_values_wf(acc),
    ensures
        entries_values_wf(spec_df_lines(acc, lines)->Ok_0),
    decreases lines.len(),
{
    if lines.len() > 0 {
        if lines[0].len() == 0 {
            lemma_df_lines_values_wf(acc, lines.skip(1));
        } else {
            match spec_split_line(lines[0]) {
                Ok(p) => {
                    if !spec_has_key(acc, p.0) {
                        let e = (p.0, PropertyV { value: ValueV::String(p.1), flags: None });
                        let acc2 = acc.push(e);
                        assert(entries_values_wf(acc2)) by {
                            assert(forall|i: int|
                                0 <= i < acc2.len() ==> (#[trigger] acc2[i]) == if i < acc.len() {
                                    acc[i]
                                } else {
                                    e
                                });
                        }
                        lemma_df_lines_values_wf(acc2, lines.skip(1));
                    }
                },
                Err(_) => {},
            }
        }
    }
}

/// Model of a split line list.
pub open spec fn lines_view(v: Seq<Vec<char>>) -> Seq<Seq<char>> {
    Seq::new(v.len(), |i: int| v[i]@)
}

/// Splits text into lines, as `spec_lines` says.
pub fn split_lines(s: &Vec<char>, pos: usize) -> (r: Vec<Vec<char>>)
    requires
        pos <= s@.len(),
    ensures
        lines_view(r@) == spec_lines(s@.skip(pos as int)),
    decreases s@.len() - pos,
{
    let n = s.len();
    let ghost tail = s@.skip(pos as int);
    if pos == n {
        let r: Vec<Vec<char>> = Vec::new();
        proof {
            assert(tail =~= Seq::<char>::empty());
            assert(lines_view(r@) =~= spec_lines(tail));
        }
        return r;
    }
    // find the end of this line
    let mut j = pos;
    while j < n
        invariant
            pos <= j <= n,
            n == s@.len(),
            forall|k: int| pos <= k < j ==> s@[k] != '\n',
        ensures
            pos <= j <= n,
            forall|k: int| pos <= k < j ==> s@[k] != '\n',
            j < n ==> s@[j as int] == '\n',
        decreases n - j,
    {
        if s[j] == '\n' {
            break;
        }
        j = j + 1;
    }
    proof {
        if j < n {
            lemma_find_char_at(s@, '\n', pos as int, j as int);
        } else {
            lemma_find_char_found(s@, '\n', pos as int);
            if find_char(s@, '\n', pos as int) >= 0 {
                let f = find_char(s@, '\n', pos as int);
                assert(s@[f] == '\n');
            }
        }
        lemma_find_char_skip(s@, pos as int, '\n', 0);
    }
    // copy the line, dropping one trailing carriage return
    let line_end: usize = if j > pos && s[j - 1] == '\r' {
        j - 1
    } else {
        j
    };
    let mut line: Vec<char> = Vec::new();
    let mut k = pos;
    while k < line_end
        invariant
            pos <= k <= line_end <= n == s@.len(),
            line@ == s@.subrange(pos as int, k as int),
        decreases line_end - k,
    {
        line.push(s[k]);
        proof {
            assert(s@.subrange(pos as int, k + 1) =~= s@.subrange(pos as int, k as int).push(
                s@[k as int],
            ));
        }
        k = k + 1;
    }
    if j < n {
        let rest = split_lines(s, j + 1);
        let mut out: Vec<Vec<char>> = Vec::new();
        out.push(line);
        let ghost restv = lines_view(rest@);
        let mut rest = rest;
        out.append(&mut rest);
        proof {
            assert(find_char(tail, '\n', 0) == j - pos);
            assert(tail.take(j - pos) =~= s@.subrange(pos as int, j as int));
            assert(strip_cr(tail.take(j - pos)) =~= s@.subrange(pos as int, line_end as int));
            assert(tail.skip(j - pos + 1) =~= s@.skip(j + 1));
            assert(lines_view(out@) =~= seq![strip_cr(tail.take(j - pos))] + restv);
        }
        out
    } else {
        let mut out: Vec<Vec<char>> = Vec::new();
        out.push(line);
        proof {
            assert(find_char(tail, '\n', 0) == -1);
            assert(tail =~= s@.subrange(pos as int, n as int));
            assert(strip_cr(tail) =~= s@.subrange(pos as int, line_end as int));
            assert(lines_view(out@) =~= seq![strip_cr(tail)]);
        }
        out
    }
}

/// Splits one line at the first ` = ` separator.
fn split_line(l: &Vec<char>) -> (r: Result<(String, String), PlaymissionError>)
    ensures
        match r {
            Ok(p) => spec_split_line(l@) == Ok::<(Seq<char>, Seq<char>), Seq<char>>((p.0@, p.1@)),
            Err(e) => {
                &&& spec_split_line(l@) == Err::<(Seq<char>, Seq<char>), Seq<char>>(l@)
                &&& e matches PlaymissionError::MalformedDatafileLine(m) && m@ == l@
            },
        },
{
    let n = l.len();
    let mut i: usize = 0;
    while n >= 3 && i <= n - 3
        invariant
            i <= n,
            n == l@.len(),
            find_sep(l@, 0) == find_sep(l@, i as int),
        decreases n - i,
    {
        if l[i] == ' ' && l[i + 1] == '=' && l[i + 2] == ' ' {
            let mut key: Vec<char> = Vec::new();
            let mut k: usize = 0;
            while k < i
                invariant
                    k <= i < n == l@.len(),
                    key@ == l@.take(i as int).take(k as int),
                decreases i - k,
            {
                key.push(l[k]);
                proof {
                    assert(l@.take(i as int).take(k + 1) =~= l@.take(i as int).take(k as int).push(
                        l@[k as int],
                    ));
                }
                k = k + 1;
            }
            let mut val: Vec<char> = Vec::new();
            let mut m: usize = i + 3;
            while m < n
                invariant
                    i + 3 <= m <= n == l@.len(),
                    val@ == l@.skip(i + 3).take(m - (i + 3)),
                decreases n - m,
            {
                val.push(l[m]);
                proof {
                    assert(l@.skip(i + 3).take(m + 1 - (i + 3)) =~= l@.skip(i + 3).take(
                        m - (i + 3),
                    ).push(l@[m as int]));
                }
                m = m + 1;
            }
            proof {
                assert(key@ =~= l@.take(i as int));
                assert(val@ =~= l@.skip(i + 3));
            }
            return Ok((string_from_chars(&key), string_from_chars(&val)));
        }
        i = i + 1;
    }
    proof {
        assert(find_sep(l@, i as int) == -1);
    }
    Err(PlaymissionError::MalformedDatafileLine(string_from_chars(l)))
}

/// Parses datafile text into string-typed properties. A line without the
/// ` = ` separator or a repeated key aborts the parse; blank lines are
/// skipped.
#[verifier::loop_isolation(false)]
pub fn parse_datafile_text(s: &Vec<char>) -> (r: Result<Properties, PlaymissionError>)
    ensures
        match r {
            Ok(p) => spec_datafile(s@) matches Ok(es) && p@ == es && p.wf(),
            Err(e) => {
                &&& spec_datafile(s@) is Err
                &&& (e matches PlaymissionError::MalformedDatafileLine(_) || e
                    matches PlaymissionError::TakenKey(_))
            },
        },
{
    proof {
        assert(s@.skip(0) =~= s@);
    }
    let lines = split_lines(s, 0);
    let mut props = Properties::new();
    let n = lines.len();
    let mut i: usize = 0;
    proof {
        assert(lines_view(lines@).skip(0) =~= lines_view(lines@));
    }
    while i < n
        invariant
            i <= n,
            n == lines@.len(),
            props.wf(),
            spec_df_lines(Seq::empty(), lines_view(lines@)) == spec_df_lines(
                props@,
                lines_view(lines@).skip(i as int),
            ),
        decreases n - i,
    {
        let ghost ltail = lines_view(lines@).skip(i as int);
        let ghost accpre = props@;
        proof {
            assert(ltail[0] == lines@[i as int]@);
            assert(ltail.skip(1) =~= lines_view(lines@).skip(i + 1));
        }
        if lines[i].len() > 0 {
            let (k, v) = match split_line(&lines[i]) {
                Ok(p) => p,
                Err(e) => {
                    return Err(e);
                },
            };
            match props.add(k, Property::new(Value::String(v), None)) {
                Ok(_) => {},
                Err(e) => {
                    return Err(e);
                },
            }
        }
        i = i + 1;
    }
    proof {
        assert(lines_view(lines@).skip(n as int) =~= Seq::<Seq<char>>::empty());
    }
    Ok(props)
}

} // verus!
