//! A process listing: a header line followed by one line per process.

use vstd::prelude::*;
use crate::error::{Error, Result};
use crate::psentry::{entry_of_line, is_entry_line, ParsingError, PsEntry};
use crate::text::{chars_of, decode_utf8_bytes};
use vstd::utf8::{decode_utf8, valid_utf8};

verus! {

/// The first position at or after `i` that holds a line feed, or the end.
pub open spec fn newline_from(s: Seq<char>, i: int) -> int
    decreases s.len() - i,
{
    if 0 <= i < s.len() && s[i] != '\n' {
        newline_from(s, i + 1)
    } else {
        i
    }
}

/// A line without its final carriage return, if it has one.
pub open spec fn without_cr(l: Seq<char>) -> Seq<char> {
    if l.len() > 0 && l.last() == '\r' {
        l.drop_last()
    } else {
        l
    }
}

/// The lines of `s` that start at or after position `i` (itself the start of a line).
pub open spec fn lines_from(s: Seq<char>, i: int) -> Seq<Seq<char>>
    decreases s.len() - i,
{
    if 0 <= i < s.len() {
        let e = newline_from(s, i);
        let rest = if i <= e && e < s.len() {
            lines_from(s, e + 1)
        } else {
            Seq::empty()
        };
        seq![without_cr(s.subrange(i, e))] + rest
    } else {
        Seq::empty()
    }
}

/// The lines of `s`, split at line feeds, each without a final carriage return;
/// a final line feed ends the last line and starts no new one.
pub open spec fn lines_of(s: Seq<char>) -> Seq<Seq<char>> {
    lines_from(s, 0)
}

/// The lines of a listing that describe processes: all but the first.
pub open spec fn body_lines(s: Seq<char>) -> Seq<Seq<char>> {
    let ls = lines_of(s);
    if ls.len() > 0 {
        ls.drop_first()
    } else {
        ls
    }
}

/// What parsing the lines `ls` yields: one entry for each line, in order, when
/// each line describes an entry; otherwise the error for the first line that
/// does not.
pub open spec fn lines_outcome(ls: Seq<Seq<char>>, r: std::result::Result<Vec<PsEntry>, ParsingError>) -> bool {
    match r {
        Ok(v) => {
            &&& v@.len() == ls.len()
            &&& forall|i: int| 0 <= i < ls.len() ==> is_entry_line(#[trigger] ls[i])
            &&& forall|i: int| 0 <= i < ls.len() ==> entry_of_line(ls[i], #[trigger] v@[i])
        },
        Err(e) => exists|i: int|
            0 <= i < ls.len() && !is_entry_line(#[trigger] ls[i]) && e.text@ == ls[i]
                && forall|j: int| 0 <= j < i ==> is_entry_line(#[trigger] ls[j]),
    }
}

/// What reading listing `s` yields.
pub open spec fn listing_outcome(s: Seq<char>, r: std::result::Result<Vec<PsEntry>, ParsingError>) -> bool {
    lines_outcome(body_lines(s), r)
}

proof fn lemma_newline_shift(p: Seq<char>, b: Seq<char>, i: int)
    requires
        0 <= i,
    ensures
        newline_from(p + b, p.len() + i) == p.len() + newline_from(b, i),
    decreases b.len() - i,
{
    if i < b.len() {
        assert((p + b)[p.len() + i] == b[i]);
        lemma_newline_shift(p, b, i + 1);
    }
}

proof fn lemma_newline_ge(s: Seq<char>, i: int)
    ensures
        newline_from(s, i) >= i,
        i <= s.len() ==> newline_from(s, i) <= s.len(),
    decreases s.len() - i,
{
    if 0 <= i < s.len() && s[i] != '\n' {
        lemma_newline_ge(s, i + 1);
    }
}

proof fn lemma_lines_shift(p: Seq<char>, b: Seq<char>, i: int)
    requires
        0 <= i,
    ensures
        lines_from(p + b, p.len() + i) == lines_from(b, i),
    decreases b.len() - i,
{
    let t = p + b;
    if i < b.len() {
        let e = newline_from(b, i);
        lemma_newline_shift(p, b, i);
        lemma_newline_ge(b, i);
        assert(t.subrange(p.len() + i, p.len() + e) =~= b.subrange(i, e));
        if e < b.len() {
            lemma_lines_shift(p, b, e + 1);
        }
    }
}

proof fn lemma_header_newline(h: Seq<char>, b: Seq<char>, i: int)
    requires
        !h.contains('\n'),
        0 <= i <= h.len(),
    ensures
        newline_from(h + seq!['\n'] + b, i) == h.len(),
    decreases h.len() - i,
{
    let t = h + seq!['\n'] + b;
    if i < h.len() {
        assert(t[i] == h[i]);
        lemma_header_newline(h, b, i + 1);
    } else {
        assert(t[i] == '\n');
    }
}

/// The first line of a listing is skipped whatever it holds: in a listing made
/// of a header line, a line feed and a body, the lines that describe processes
/// are exactly the lines of the body.
pub proof fn lemma_header_skipped(header: Seq<char>, body: Seq<char>)
    requires
        !header.contains('\n'),
    ensures
        body_lines(header + seq!['\n'] + body) == lines_of(body),
{
    let p = header + seq!['\n'];
    let t = p + body;
    lemma_header_newline(header, body, 0);
    lemma_lines_shift(p, body, 0);
    assert(lines_of(t) == seq![without_cr(t.subrange(0, header.len() as int))] + lines_from(t, p.len() as int));
    assert(lines_of(t).drop_first() =~= lines_from(t, p.len() as int));
}

fn newline_at_or_after(s: &Vec<char>, i: usize) -> (r: usize)
    requires
        i <= s@.len(),
    ensures
        r == newline_from(s@, i as int),
        i <= r <= s@.len(),
{
    let mut j = i;
    while j < s.len() && s[j] != '\n'
        invariant
            i <= j <= s@.len(),
            newline_from(s@, j as int) == newline_from(s@, i as int),
        decreases s@.len() - j,
    {
        j = j + 1;
    }
    j
}

/// Splits `s` into its lines.
pub fn split_lines(s: &Vec<char>) -> (r: Vec<Vec<char>>)
    ensures
        r@.len() == lines_of(s@).len(),
        forall|k: int| 0 <= k < r@.len() ==> (#[trigger] r@[k])@ == lines_of(s@)[k],
{
    let n = s.len();
    let mut out: Vec<Vec<char>> = Vec::new();
    let ghost mut seen: Seq<Seq<char>> = Seq::empty();
    let mut i: usize = 0;
    while i < n
        invariant
            n == s@.len(),
            i <= n,
            lines_of(s@) == seen + lines_from(s@, i as int),
            out@.len() == seen.len(),
            forall|k: int| 0 <= k < out@.len() ==> (#[trigger] out@[k])@ == seen[k],
        decreases n - i,
    {
        let e = newline_at_or_after(s, i);
        let mut end = e;
        if end > i && s[end - 1] == '\r' {
            end = end - 1;
        }
        let line = vstd::slice::slice_to_vec(vstd::slice::slice_subrange(s.as_slice(), i, end));
        let ghost whole = s@.subrange(i as int, e as int);
        assert(line@ == without_cr(whole)) by {
            if e > i && s@[e - 1] == '\r' {
                assert(whole.drop_last() =~= s@.subrange(i as int, end as int));
            } else {
                assert(whole =~= s@.subrange(i as int, end as int));
            }
        }
        let ghost rest = lines_from(s@, i as int);
        out.push(line);
        proof {
            seen = seen.push(line@);
            assert(rest.drop_first() == if e < n {
                lines_from(s@, e + 1)
            } else {
                Seq::<Seq<char>>::empty()
            });
            assert(lines_of(s@) =~= seen + rest.drop_first());
        }
        if e < n {
            i = e + 1;
        } else {
            i = n;
        }
        proof {
            if e >= n {
                assert(lines_from(s@, i as int) =~= Seq::<Seq<char>>::empty());
            }
            assert forall|k: int| 0 <= k < out@.len() implies (#[trigger] out@[k])@ == seen[k] by {}
        }
    }
    assert(lines_of(s@) =~= seen);
    out
}

/// Parses each of `ls[from..]`, stopping at the first line that does not
/// describe an entry.
fn parse_lines(ls: &Vec<Vec<char>>, from: usize) -> (r: std::result::Result<Vec<PsEntry>, ParsingError>)
    requires
        from <= ls@.len(),
    ensures
        lines_outcome(ls@.subrange(from as int, ls@.len() as int).map_values(|l: Vec<char>| l@), r),
{
    let ghost body = ls@.subrange(from as int, ls@.len() as int).map_values(|l: Vec<char>| l@);
    let mut out: Vec<PsEntry> = Vec::new();
    let mut i = from;
    while i < ls.len()
        invariant
            from <= i <= ls@.len(),
            body == ls@.subrange(from as int, ls@.len() as int).map_values(|l: Vec<char>| l@),
            out@.len() == i - from,
            forall|j: int| 0 <= j < i - from ==> is_entry_line(#[trigger] body[j]),
            forall|j: int| 0 <= j < i - from ==> entry_of_line(body[j], #[trigger] out@[j]),
        decreases ls@.len() - i,
    {
        assert(body[i - from] == ls@[i as int]@);
        match PsEntry::parse_chars(&ls[i]) {
            Ok(e) => {
                let ghost before = out@;
                out.push(e);
                assert forall|j: int| 0 <= j < i + 1 - from implies entry_of_line(body[j], #[trigger] out@[j]) by {
                    if j < i - from {
                        assert(out@[j] == before[j]);
                    }
                }
            },
            Err(err) => {
                assert(!is_entry_line(body[i - from]) && err.text@ == body[i - from]);
                return Err(err);
            },
        }
        i = i + 1;
    }
    Ok(out)
}

/// Reads a process listing: skips its first line, the header, and parses every
/// other line. The first line that does not describe an entry aborts the whole
/// listing.
pub fn parse_listing(text: &Vec<char>) -> (r: std::result::Result<Vec<PsEntry>, ParsingError>)
    ensures
        listing_outcome(text@, r),
{
    let ls = split_lines(text);
    let from: usize = if ls.len() > 0 { 1 } else { 0 };
    let r = parse_lines(&ls, from);
    assert(ls@.subrange(from as int, ls@.len() as int).map_values(|l: Vec<char>| l@)
        =~= body_lines(text@));
    r
}

/// Reads the raw output of the process-listing command: it must be UTF-8 text,
/// whose first line is skipped and whose other lines must each describe an entry.
pub fn list_all(output: Vec<u8>) -> (r: Result<Vec<PsEntry>>)
    ensures
        match r {
            Ok(v) => valid_utf8(output@) && listing_outcome(decode_utf8(output@), Ok(v)),
            Err(Error::Utf8Error { .. }) => !valid_utf8(output@),
            Err(Error::ParsingError { e }) => valid_utf8(output@) && listing_outcome(
                decode_utf8(output@),
                Err(e),
            ),
            Err(_) => false,
        },
{
    match decode_utf8_bytes(output) {
        Ok(text) => {
            let chars = chars_of(text.as_str());
            match parse_listing(&chars) {
                Ok(v) => Ok(v),
                Err(e) => Err(Error::ParsingError { e }),
            }
        },
        Err(e) => Err(Error::Utf8Error { e }),
    }
}

} // verus!
