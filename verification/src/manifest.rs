//! Reading the segment manifest.
//!
//! The external encoder appends one segment filename per line to a plain
//! UTF-8 manifest file. The runtime hands the file's current contents to
//! this module as a string; `parse_manifest` turns it into the set of
//! segment names it holds: the non-empty lines, each name listed once.

use vstd::prelude::*;

verus! {

/// A line with a trailing carriage return, as left by a CRLF line ending,
/// dropped.
pub open spec fn strip_cr(l: Seq<char>) -> Seq<char> {
    if l.len() > 0 && l[l.len() - 1] == '\r' {
        l.drop_last()
    } else {
        l
    }
}

/// The lines still to come when `rest` of the text is unread and `cur` is
/// the part of the current line read so far. A newline finishes the current
/// line (minus a carriage return just before it); text left over at the end
/// counts as a final, unterminated line, kept as it stands.
pub open spec fn lines_from(rest: Seq<char>, cur: Seq<char>) -> Seq<Seq<char>>
    decreases rest.len(),
{
    if rest.len() == 0 {
        if cur.len() == 0 {
            Seq::empty()
        } else {
            seq![cur]
        }
    } else if rest[0] == '\n' {
        seq![strip_cr(cur)] + lines_from(rest.subrange(1, rest.len() as int), Seq::empty())
    } else {
        lines_from(rest.subrange(1, rest.len() as int), cur.push(rest[0]))
    }
}

/// The lines of a text, split at newlines, line endings removed.
pub open spec fn spec_lines(text: Seq<char>) -> Seq<Seq<char>> {
    lines_from(text, Seq::empty())
}

/// The segment names a manifest text holds: its non-empty lines, as a set.
pub open spec fn manifest_names(text: Seq<char>) -> Set<Seq<char>> {
    Set::new(|l: Seq<char>| l.len() > 0 && spec_lines(text).contains(l))
}

/// The set of names a segment list holds.
pub open spec fn names_of(segments: Seq<Seq<char>>) -> Set<Seq<char>> {
    Set::new(|l: Seq<char>| segments.contains(l))
}

/// Splits a text into its lines, dropping each line's terminator.
pub fn split_lines(text: &str) -> (lines: Vec<String>)
    ensures
        lines.deep_view() == spec_lines(text@),
{
    let n: usize = text.unicode_len();
    let mut lines: Vec<String> = Vec::new();
    let mut start: usize = 0;
    let mut pos: usize = 0;
    proof {
        assert(text@.subrange(0, n as int) =~= text@);
        assert(text@.subrange(0, 0) =~= Seq::<char>::empty());
        assert(lines.deep_view() =~= Seq::<Seq<char>>::empty());
        assert(Seq::<Seq<char>>::empty() + lines_from(text@, Seq::<char>::empty()) =~= lines_from(
            text@,
            Seq::<char>::empty(),
        ));
    }
    while pos < n
        invariant
            start <= pos <= n,
            n == text@.len(),
            spec_lines(text@) == lines.deep_view() + lines_from(
                text@.subrange(pos as int, n as int),
                text@.subrange(start as int, pos as int),
            ),
        decreases n - pos,
    {
        let ghost rest = text@.subrange(pos as int, n as int);
        let ghost cur = text@.subrange(start as int, pos as int);
        proof {
            assert(rest[0] == text@[pos as int]);
            assert(rest.subrange(1, rest.len() as int) =~= text@.subrange(
                pos as int + 1,
                n as int,
            ));
        }
        let c = text.get_char(pos);
        if c == '\n' {
            let has_cr = pos > start && text.get_char(pos - 1) == '\r';
            let line_end = if has_cr {
                pos - 1
            } else {
                pos
            };
            let line = text.substring_char(start, line_end);
            proof {
                if has_cr {
                    assert(cur[cur.len() - 1] == text@[pos as int - 1]);
                    assert(cur.drop_last() =~= text@.subrange(start as int, line_end as int));
                } else {
                    if cur.len() > 0 {
                        assert(cur[cur.len() - 1] == text@[pos as int - 1]);
                    }
                }
                assert(strip_cr(cur) =~= text@.subrange(start as int, line_end as int));
                assert(line@ == strip_cr(cur));
            }
            let ghost before = lines.deep_view();
            lines.push(String::from_str(line));
            proof {
                assert(lines.deep_view() =~= before.push(line@));
                assert(lines_from(rest, cur) == seq![strip_cr(cur)] + lines_from(
                    rest.subrange(1, rest.len() as int),
                    Seq::<char>::empty(),
                ));
                assert(before.push(line@) + lines_from(
                    text@.subrange(pos as int + 1, n as int),
                    Seq::<char>::empty(),
                ) =~= before + (seq![strip_cr(cur)] + lines_from(
                    text@.subrange(pos as int + 1, n as int),
                    Seq::<char>::empty(),
                )));
                assert(text@.subrange(pos as int + 1, pos as int + 1) =~= Seq::<char>::empty());
            }
            pos = pos + 1;
            start = pos;
        } else {
            proof {
                assert(cur.push(text@[pos as int]) =~= text@.subrange(
                    start as int,
                    pos as int + 1,
                ));
                assert(lines_from(rest, cur) == lines_from(
                    rest.subrange(1, rest.len() as int),
                    cur.push(rest[0]),
                ));
            }
            pos = pos + 1;
        }
    }
    proof {
        assert(text@.subrange(n as int, n as int) =~= Seq::<char>::empty());
    }
    if start < n {
        let line = text.substring_char(start, n);
        let ghost before = lines.deep_view();
        let ghost cur = text@.subrange(start as int, n as int);
        lines.push(String::from_str(line));
        proof {
            assert(cur.len() > 0);
            assert(lines_from(Seq::<char>::empty(), cur) == seq![cur]);
            assert(lines.deep_view() =~= before.push(line@));
            assert(before.push(line@) =~= before + seq![cur]);
        }
    } else {
        proof {
            assert(text@.subrange(start as int, start as int) =~= Seq::<char>::empty());
            assert(lines_from(Seq::<char>::empty(), Seq::<char>::empty()) =~= Seq::<
                Seq<char>,
            >::empty());
            assert(lines.deep_view() + Seq::<Seq<char>>::empty() =~= lines.deep_view());
        }
    }
    lines
}

/// Whether a list of segment names already holds `name`.
pub fn contains_name(segments: &Vec<String>, name: &String) -> (found: bool)
    ensures
        found == segments.deep_view().contains(name@),
{
    let mut i: usize = 0;
    while i < segments.len()
        invariant
            i <= segments.len(),
            forall|k: int| 0 <= k < i ==> segments.deep_view()[k] != name@,
        decreases segments.len() - i,
    {
        if segments[i].eq(name) {
            assert(segments.deep_view()[i as int] == name@);
            return true;
        }
        i = i + 1;
    }
    proof {
        if segments.deep_view().contains(name@) {
            let k = choose|k: int|
                0 <= k < segments.deep_view().len() && segments.deep_view()[k] == name@;
            assert(segments.deep_view()[k] != name@);
        }
    }
    false
}

/// Reads a manifest text as the set of segment names it holds: every
/// non-empty line appears in the result exactly once, and nothing else does.
pub fn parse_manifest(text: &str) -> (segments: Vec<String>)
    ensures
        segments.deep_view().no_duplicates(),
        names_of(segments.deep_view()) == manifest_names(text@),
        forall|l: Seq<char>| #[trigger] segments.deep_view().contains(l) ==> l.len() > 0,
{
    let lines = split_lines(text);
    let mut segments: Vec<String> = Vec::new();
    let mut i: usize = 0;
    while i < lines.len()
        invariant
            i <= lines.len(),
            lines.deep_view() == spec_lines(text@),
            segments.deep_view().no_duplicates(),
            forall|j: int|
                0 <= j < segments.deep_view().len() ==> #[trigger] segments.deep_view()[j].len()
                    > 0 && spec_lines(text@).contains(segments.deep_view()[j]),
            forall|k: int|
                0 <= k < i && lines.deep_view()[k].len() > 0 ==> segments.deep_view().contains(
                    #[trigger] lines.deep_view()[k],
                ),
        decreases lines.len() - i,
    {
        let line = &lines[i];
        assert(line@ == lines.deep_view()[i as int]);
        if !line.as_str().is_empty() {
            if !contains_name(&segments, line) {
                let ghost before = segments.deep_view();
                segments.push(line.clone());
                proof {
                    assert(segments.deep_view() =~= before.push(line@));
                    assert(spec_lines(text@).contains(lines.deep_view()[i as int]));
                    assert forall|k: int| 0 <= k < i + 1 && lines.deep_view()[k].len() > 0 implies
                        segments.deep_view().contains(#[trigger] lines.deep_view()[k]) by {
                        if k < i {
                            let j = choose|j: int|
                                0 <= j < before.len() && before[j] == lines.deep_view()[k];
                            assert(segments.deep_view()[j] == lines.deep_view()[k]);
                        } else {
                            assert(segments.deep_view()[before.len() as int] == lines.deep_view()[
                                k]);
                        }
                    }
                }
            }
        }
        i = i + 1;
    }
    proof {
        assert forall|l: Seq<char>| manifest_names(text@).contains(l) implies names_of(
            segments.deep_view(),
        ).contains(l) by {
            let k = choose|k: int|
                0 <= k < spec_lines(text@).len() && spec_lines(text@)[k] == l;
            assert(lines.deep_view()[k].len() > 0);
            assert(segments.deep_view().contains(lines.deep_view()[k]));
        }
        assert forall|l: Seq<char>| names_of(segments.deep_view()).contains(l) implies
            manifest_names(text@).contains(l) by {
            let j = choose|j: int|
                0 <= j < segments.deep_view().len() && segments.deep_view()[j] == l;
            assert(segments.deep_view()[j].len() > 0);
        }
        assert(names_of(segments.deep_view()) =~= manifest_names(text@));
    }
    segments
}

} // verus!
