//! One entry of a process listing, and the parser of the listing's lines.
//!
//! A line holds, separated by whitespace, the owner, the pid, the parent's pid
//! and then the command (which may itself hold whitespace). Whitespace before
//! and after the line is insignificant.

use vstd::prelude::*;
use crate::text::{chars_of, digits_value, is_digit, is_space, char_is_space, string_from_chars};

verus! {

/// Some basic information about one process of a listing.
#[derive(Debug)]
pub struct PsEntry {
    /// The owner, which may be numeric or a user name.
    pub uid: String,
    /// The process' id.
    pub pid: usize,
    /// The parent process' id.
    pub ppid: usize,
    /// The command text: everything after the third field.
    pub command: String,
}

impl Clone for PsEntry {
    fn clone(&self) -> (r: Self)
        ensures
            r == *self,
    {
        PsEntry {
            uid: self.uid.clone(),
            pid: self.pid,
            ppid: self.ppid,
            command: self.command.clone(),
        }
    }
}

/// The error issued when a line does not have the shape of a listing entry.
#[derive(Debug)]
pub struct ParsingError {
    /// The offending line.
    pub text: String,
}

impl Clone for ParsingError {
    fn clone(&self) -> (r: Self)
        ensures
            r == *self,
    {
        ParsingError { text: self.text.clone() }
    }
}

/// The first position at or after `i` that does not hold whitespace.
pub open spec fn skip_space(s: Seq<char>, i: int) -> int
    decreases s.len() - i,
{
    if 0 <= i < s.len() && is_space(s[i]) {
        skip_space(s, i + 1)
    } else {
        i
    }
}

/// The first position at or after `i` that holds whitespace, or the end.
pub open spec fn token_end(s: Seq<char>, i: int) -> int
    decreases s.len() - i,
{
    if 0 <= i < s.len() && !is_space(s[i]) {
        token_end(s, i + 1)
    } else {
        i
    }
}

/// The position after the last non-whitespace character before `i`.
pub open spec fn trim_end_at(s: Seq<char>, i: int) -> int
    decreases i,
{
    if 0 < i <= s.len() && is_space(s[i - 1]) {
        trim_end_at(s, i - 1)
    } else {
        i
    }
}

pub open spec fn uid_start(s: Seq<char>) -> int {
    skip_space(s, 0)
}

pub open spec fn uid_end(s: Seq<char>) -> int {
    token_end(s, uid_start(s))
}

pub open spec fn pid_start(s: Seq<char>) -> int {
    skip_space(s, uid_end(s))
}

pub open spec fn pid_end(s: Seq<char>) -> int {
    token_end(s, pid_start(s))
}

pub open spec fn ppid_start(s: Seq<char>) -> int {
    skip_space(s, pid_end(s))
}

pub open spec fn ppid_end(s: Seq<char>) -> int {
    token_end(s, ppid_start(s))
}

pub open spec fn command_start(s: Seq<char>) -> int {
    skip_space(s, ppid_end(s))
}

pub open spec fn command_end(s: Seq<char>) -> int {
    trim_end_at(s, s.len() as int)
}

/// The second field of a line.
pub open spec fn pid_field(s: Seq<char>) -> Seq<char> {
    s.subrange(pid_start(s), pid_end(s))
}

/// The third field of a line.
pub open spec fn ppid_field(s: Seq<char>) -> Seq<char> {
    s.subrange(ppid_start(s), ppid_end(s))
}

/// A numeral of decimal digits whose value fits in a `usize`.
pub open spec fn is_number(d: Seq<char>) -> bool {
    &&& d.len() > 0
    &&& forall|k: int| 0 <= k < d.len() ==> is_digit(#[trigger] d[k])
    &&& digits_value(d) <= usize::MAX
}

/// The line has at least three fields, of which the second and third are numbers.
pub open spec fn is_entry_line(s: Seq<char>) -> bool {
    &&& uid_start(s) < uid_end(s)
    &&& is_number(pid_field(s))
    &&& is_number(ppid_field(s))
}

/// The owner field of a line.
pub open spec fn line_uid(s: Seq<char>) -> Seq<char> {
    s.subrange(uid_start(s), uid_end(s))
}

pub open spec fn line_pid(s: Seq<char>) -> int {
    digits_value(pid_field(s))
}

pub open spec fn line_ppid(s: Seq<char>) -> int {
    digits_value(ppid_field(s))
}

/// Everything after the third field, without the whitespace around it.
pub open spec fn line_command(s: Seq<char>) -> Seq<char> {
    if command_start(s) < command_end(s) {
        s.subrange(command_start(s), command_end(s))
    } else {
        Seq::empty()
    }
}

/// The entry that line `s` describes.
pub open spec fn entry_of_line(s: Seq<char>, e: PsEntry) -> bool {
    &&& e.uid@ == line_uid(s)
    &&& e.pid == line_pid(s)
    &&& e.ppid == line_ppid(s)
    &&& e.command@ == line_command(s)
}

/// What parsing line `s` yields: the entry it describes, or an error that
/// carries the line.
pub open spec fn parse_outcome(s: Seq<char>, r: Result<PsEntry, ParsingError>) -> bool {
    match r {
        Ok(e) => is_entry_line(s) && entry_of_line(s, e),
        Err(err) => !is_entry_line(s) && err.text@ == s,
    }
}

/// Every character of `w` is whitespace.
pub open spec fn all_space(w: Seq<char>) -> bool {
    forall|k: int| 0 <= k < w.len() ==> is_space(#[trigger] w[k])
}

/// `t` is a field: non-empty, without whitespace.
pub open spec fn is_field(t: Seq<char>) -> bool {
    t.len() > 0 && forall|k: int| 0 <= k < t.len() ==> !is_space(#[trigger] t[k])
}

proof fn lemma_skip_space_to(s: Seq<char>, i: int, j: int)
    requires
        0 <= i <= j <= s.len(),
        forall|k: int| i <= k < j ==> is_space(#[trigger] s[k]),
        j == s.len() || !is_space(s[j]),
    ensures
        skip_space(s, i) == j,
    decreases j - i,
{
    if i < j {
        lemma_skip_space_to(s, i + 1, j);
    }
}

proof fn lemma_token_end_to(s: Seq<char>, i: int, j: int)
    requires
        0 <= i <= j <= s.len(),
        forall|k: int| i <= k < j ==> !is_space(#[trigger] s[k]),
        j == s.len() || is_space(s[j]),
    ensures
        token_end(s, i) == j,
    decreases j - i,
{
    if i < j {
        lemma_token_end_to(s, i + 1, j);
    }
}

/// A line made of optional whitespace, an owner field, whitespace, a number,
/// whitespace, a number, and then nothing or whitespace followed by anything,
/// describes an entry: the one with that owner and those two numbers as pid and
/// parent pid.
pub proof fn lemma_well_formed_line(
    w0: Seq<char>,
    u: Seq<char>,
    w1: Seq<char>,
    p: Seq<char>,
    w2: Seq<char>,
    q: Seq<char>,
    rest: Seq<char>,
)
    requires
        all_space(w0),
        is_field(u),
        w1.len() > 0 && all_space(w1),
        is_number(p),
        w2.len() > 0 && all_space(w2),
        is_number(q),
        rest.len() == 0 || is_space(rest[0]),
    ensures
        is_entry_line(w0 + u + w1 + p + w2 + q + rest),
        line_uid(w0 + u + w1 + p + w2 + q + rest) == u,
        line_pid(w0 + u + w1 + p + w2 + q + rest) == digits_value(p),
        line_ppid(w0 + u + w1 + p + w2 + q + rest) == digits_value(q),
{
    let s = w0 + u + w1 + p + w2 + q + rest;
    let a = w0.len() as int;
    let b = a + u.len();
    let c = b + w1.len();
    let d = c + p.len();
    let e = d + w2.len();
    let f = e + q.len();
    assert(s.subrange(0, a) =~= w0);
    assert(s.subrange(a, b) =~= u);
    assert(s.subrange(b, c) =~= w1);
    assert(s.subrange(c, d) =~= p);
    assert(s.subrange(d, e) =~= w2);
    assert(s.subrange(e, f) =~= q);
    assert forall|k: int| 0 <= k < a implies is_space(#[trigger] s[k]) by {
        assert(s[k] == w0[k]);
    }
    assert forall|k: int| a <= k < b implies !is_space(#[trigger] s[k]) by {
        assert(s[k] == u[k - a]);
    }
    assert forall|k: int| b <= k < c implies is_space(#[trigger] s[k]) by {
        assert(s[k] == w1[k - b]);
    }
    assert forall|k: int| c <= k < d implies !is_space(#[trigger] s[k]) by {
        assert(s[k] == p[k - c]);
        assert(is_digit(p[k - c]));
    }
    assert forall|k: int| d <= k < e implies is_space(#[trigger] s[k]) by {
        assert(s[k] == w2[k - d]);
    }
    assert forall|k: int| e <= k < f implies !is_space(#[trigger] s[k]) by {
        assert(s[k] == q[k - e]);
        assert(is_digit(q[k - e]));
    }
    assert(!is_space(s[a])) by { assert(s[a] == u[0]); }
    assert(!is_space(s[c])) by { assert(s[c] == p[0]); assert(is_digit(p[0])); }
    assert(!is_space(s[e])) by { assert(s[e] == q[0]); assert(is_digit(q[0])); }
    assert(f == s.len() || is_space(s[f])) by {
        if f < s.len() {
            assert(s[f] == rest[0]);
        }
    }
    lemma_skip_space_to(s, 0, a);
    lemma_token_end_to(s, a, b);
    lemma_skip_space_to(s, b, c);
    lemma_token_end_to(s, c, d);
    lemma_skip_space_to(s, d, e);
    lemma_token_end_to(s, e, f);
}

/// The number of whitespace-separated fields of `s` from position `i` on.
pub open spec fn fields_from(s: Seq<char>, i: int) -> nat
    decreases s.len() - i,
{
    let a = skip_space(s, i);
    let b = token_end(s, a);
    // `i < b <= s.len()` always holds where `a` is before the end; it is
    // written for termination.
    if 0 <= i && a < s.len() && i < b <= s.len() {
        1 + fields_from(s, b)
    } else {
        0
    }
}

proof fn lemma_scan_bounds(s: Seq<char>, i: int)
    requires
        0 <= i <= s.len(),
    ensures
        i <= skip_space(s, i) <= s.len(),
        i <= token_end(s, i) <= s.len(),
        skip_space(s, i) < s.len() ==> token_end(s, skip_space(s, i)) > skip_space(s, i),
    decreases s.len() - i,
{
    if i < s.len() {
        lemma_scan_bounds(s, i + 1);
    }
    let a = skip_space(s, i);
    if a < s.len() {
        assert(!is_space(s[a])) by {
            lemma_skip_stops(s, i);
        }
    }
}

proof fn lemma_skip_stops(s: Seq<char>, i: int)
    requires
        0 <= i,
        skip_space(s, i) < s.len(),
    ensures
        !is_space(s[skip_space(s, i)]),
    decreases s.len() - i,
{
    if 0 <= i < s.len() && is_space(s[i]) {
        lemma_skip_stops(s, i + 1);
    }
}

/// A line with fewer than three fields, or whose second or third field is not
/// a number that fits in a `usize`, does not describe an entry.
pub proof fn lemma_malformed_line(s: Seq<char>)
    requires
        fields_from(s, 0) < 3 || !is_number(pid_field(s)) || !is_number(ppid_field(s)),
    ensures
        !is_entry_line(s),
{
    if is_entry_line(s) {
        lemma_scan_bounds(s, 0);
        lemma_scan_bounds(s, uid_start(s));
        lemma_scan_bounds(s, uid_end(s));
        lemma_scan_bounds(s, pid_start(s));
        lemma_scan_bounds(s, pid_end(s));
        lemma_scan_bounds(s, ppid_start(s));
        lemma_scan_bounds(s, ppid_end(s));
        assert(fields_from(s, ppid_end(s)) >= 0);
        assert(fields_from(s, pid_end(s)) >= 1);
        assert(fields_from(s, uid_end(s)) >= 2);
        assert(fields_from(s, 0) >= 3);
    }
}

pub(crate) fn skip_space_from(s: &Vec<char>, i: usize) -> (r: usize)
    requires
        i <= s@.len(),
    ensures
        r == skip_space(s@, i as int),
        i <= r <= s@.len(),
{
    let mut j = i;
    while j < s.len() && char_is_space(s[j])
        invariant
            i <= j <= s@.len(),
            skip_space(s@, j as int) == skip_space(s@, i as int),
        decreases s@.len() - j,
    {
        j = j + 1;
    }
    j
}

fn token_end_from(s: &Vec<char>, i: usize) -> (r: usize)
    requires
        i <= s@.len(),
    ensures
        r == token_end(s@, i as int),
        i <= r <= s@.len(),
{
    let mut j = i;
    while j < s.len() && !char_is_space(s[j])
        invariant
            i <= j <= s@.len(),
            token_end(s@, j as int) == token_end(s@, i as int),
        decreases s@.len() - j,
    {
        j = j + 1;
    }
    j
}

pub(crate) fn trim_end_from(s: &Vec<char>) -> (r: usize)
    ensures
        r == trim_end_at(s@, s@.len() as int),
        r <= s@.len(),
{
    let mut j = s.len();
    while j > 0 && char_is_space(s[j - 1])
        invariant
            j <= s@.len(),
            trim_end_at(s@, j as int) == trim_end_at(s@, s@.len() as int),
        decreases j,
    {
        j = j - 1;
    }
    j
}

proof fn lemma_digits_value_grows(d: Seq<char>, k: int)
    requires
        0 <= k <= d.len(),
        forall|m: int| 0 <= m < d.len() ==> is_digit(#[trigger] d[m]),
    ensures
        0 <= digits_value(d.subrange(0, k)) <= digits_value(d),
    decreases d.len() - k,
{
    if k < d.len() {
        lemma_digits_value_grows(d, k + 1);
        let t = d.subrange(0, k + 1);
        assert(t.drop_last() =~= d.subrange(0, k));
        assert(is_digit(d[k]));
    } else {
        assert(d.subrange(0, k) =~= d);
        lemma_digits_value_nonneg(d);
    }
}

proof fn lemma_digits_value_nonneg(d: Seq<char>)
    requires
        forall|m: int| 0 <= m < d.len() ==> is_digit(#[trigger] d[m]),
    ensures
        digits_value(d) >= 0,
    decreases d.len(),
{
    if d.len() > 0 {
        assert(is_digit(d[d.len() - 1]));
        lemma_digits_value_nonneg(d.drop_last());
    }
}

/// The value of the numeral `s[from..to]`, if it is one that fits in a `usize`.
fn number_in(s: &Vec<char>, from: usize, to: usize) -> (r: Option<usize>)
    requires
        from <= to <= s@.len(),
    ensures
        r is Some <==> is_number(s@.subrange(from as int, to as int)),
        r is Some ==> r->0 == digits_value(s@.subrange(from as int, to as int)),
{
    let ghost d = s@.subrange(from as int, to as int);
    if from == to {
        return None;
    }
    let mut acc: usize = 0;
    let mut j = from;
    while j < to
        invariant
            from <= j <= to <= s@.len(),
            d == s@.subrange(from as int, to as int),
            forall|m: int| from <= m < j ==> is_digit(#[trigger] s@[m]),
            acc == digits_value(s@.subrange(from as int, j as int)),
        decreases to - j,
    {
        let c = s[j];
        if !('0' <= c && c <= '9') {
            assert(!is_digit(d[j - from]));
            return None;
        }
        let ghost prev = s@.subrange(from as int, j as int);
        let ghost next = s@.subrange(from as int, j + 1);
        assert(next.drop_last() =~= prev);
        let digit = (c as u32 - '0' as u32) as usize;
        match acc.checked_mul(10) {
            Some(m) => match m.checked_add(digit) {
                Some(v) => {
                    acc = v;
                },
                None => {
                    proof { overflow_or_not_number(s@, from as int, j as int + 1, to as int); }
                    return None;
                },
            },
            None => {
                proof { overflow_or_not_number(s@, from as int, j as int + 1, to as int); }
                return None;
            },
        }
        j = j + 1;
    }
    assert(s@.subrange(from as int, j as int) =~= d);
    Some(acc)
}

proof fn overflow_or_not_number(s: Seq<char>, from: int, k: int, to: int)
    requires
        0 <= from < k <= to <= s.len(),
        forall|m: int| from <= m < k ==> is_digit(#[trigger] s[m]),
        digits_value(s.subrange(from, k)) > usize::MAX,
    ensures
        !is_number(s.subrange(from, to)),
{
    let d = s.subrange(from, to);
    if forall|m: int| 0 <= m < d.len() ==> is_digit(#[trigger] d[m]) {
        lemma_digits_value_grows(d, k - from);
        assert(d.subrange(0, k - from) =~= s.subrange(from, k));
    }
}

impl PsEntry {
    /// Parses one line of a process listing, given as its characters.
    pub fn parse_chars(line: &Vec<char>) -> (r: Result<PsEntry, ParsingError>)
        ensures
            parse_outcome(line@, r),
    {
        let s = line;
        let a0 = skip_space_from(s, 0);
        let a1 = token_end_from(s, a0);
        let b0 = skip_space_from(s, a1);
        let b1 = token_end_from(s, b0);
        let c0 = skip_space_from(s, b1);
        let c1 = token_end_from(s, c0);
        let d0 = skip_space_from(s, c1);
        let d1 = trim_end_from(s);
        let pid = number_in(s, b0, b1);
        let ppid = number_in(s, c0, c1);
        if a0 < a1 && pid.is_some() && ppid.is_some() {
            let cmd = if d0 < d1 {
                string_from_chars(vstd::slice::slice_subrange(s.as_slice(), d0, d1))
            } else {
                String::new()
            };
            Ok(PsEntry {
                uid: string_from_chars(vstd::slice::slice_subrange(s.as_slice(), a0, a1)),
                pid: pid.unwrap(),
                ppid: ppid.unwrap(),
                command: cmd,
            })
        } else {
            Err(ParsingError { text: string_from_chars(s.as_slice()) })
        }
    }

    /// Parses one line of a process listing.
    pub fn try_from(line: &str) -> (r: Result<PsEntry, ParsingError>)
        ensures
            parse_outcome(line@, r),
    {
        let chars = chars_of(line);
        PsEntry::parse_chars(&chars)
    }
}

} // verus!
