//! Selection of the entries whose command matches a regular expression.

use vstd::prelude::*;
use crate::error::{Error, Result};
use crate::psentry::PsEntry;

verus! {

#[verifier::external_type_specification]
#[verifier::external_body]
pub struct ExRegex(regex::Regex);

/// Whether `regex::Regex::new` accepts `pattern`.
pub uninterp spec fn regex_compiles(pattern: Seq<char>) -> bool;

/// Whether the regular expression `pattern` matches somewhere in `haystack`
/// (a search, not anchored to the whole text).
pub uninterp spec fn regex_finds(pattern: Seq<char>, haystack: Seq<char>) -> bool;

/// A compiled regular expression, together with the text it was compiled from.
/// Only [`compile`] builds one, so `re` is always the compilation of `source`.
pub struct Pattern {
    re: regex::Regex,
    source: String,
}

impl View for Pattern {
    type V = Seq<char>;

    closed spec fn view(&self) -> Seq<char> {
        self.source@
    }
}

/// Relies on `regex::Regex::new`: it fails exactly on the patterns it does not
/// accept, and its error's message is kept.
#[verifier::external_body]
fn compile(pattern: &str) -> (r: std::result::Result<Pattern, String>)
    ensures
        r is Ok <==> regex_compiles(pattern@),
        r is Ok ==> r->Ok_0@ == pattern@,
{
    match regex::Regex::new(pattern) {
        Ok(re) => Ok(Pattern { re, source: pattern.to_string() }),
        Err(e) => Err(e.to_string()),
    }
}

/// Relies on `regex::Regex::is_match`: whether the compiled pattern matches
/// somewhere in `haystack`.
#[verifier::external_body]
fn pattern_matches(p: &Pattern, haystack: &str) -> (r: bool)
    ensures
        r == regex_finds(p@, haystack@),
{
    p.re.is_match(haystack)
}

/// The entries of `entries` whose flag in `keep` is set, in order.
pub open spec fn kept(entries: Seq<PsEntry>, keep: Seq<bool>) -> Seq<PsEntry>
    decreases entries.len(),
{
    if entries.len() == 0 {
        Seq::empty()
    } else {
        let sub = kept(entries.drop_last(), keep.drop_last());
        if keep[entries.len() - 1] {
            sub.push(entries.last())
        } else {
            sub
        }
    }
}

/// Whether the command of `e` matches the regular expression `pattern`.
pub open spec fn command_matches(pattern: Seq<char>, e: PsEntry) -> bool {
    regex_finds(pattern, e.command@)
}

/// The test that an entry's command matches `pattern`.
pub open spec fn matcher(pattern: Seq<char>) -> spec_fn(PsEntry) -> bool {
    |e: PsEntry| command_matches(pattern, e)
}

/// Keeps, in order, the entries whose flag is set.
pub fn select_flagged(entries: &Vec<PsEntry>, keep: &Vec<bool>) -> (r: Vec<PsEntry>)
    requires
        keep@.len() == entries@.len(),
    ensures
        r@ == kept(entries@, keep@),
{
    let mut out: Vec<PsEntry> = Vec::new();
    let mut i: usize = 0;
    while i < entries.len()
        invariant
            keep@.len() == entries@.len(),
            i <= entries@.len(),
            out@ == kept(entries@.subrange(0, i as int), keep@.subrange(0, i as int)),
        decreases entries@.len() - i,
    {
        assert(entries@.subrange(0, i + 1).drop_last() =~= entries@.subrange(0, i as int));
        assert(keep@.subrange(0, i + 1).drop_last() =~= keep@.subrange(0, i as int));
        if keep[i] {
            out.push(entries[i].clone());
        }
        i = i + 1;
    }
    assert(entries@.subrange(0, i as int) =~= entries@);
    assert(keep@.subrange(0, i as int) =~= keep@);
    out
}

proof fn lemma_kept_is_filter(entries: Seq<PsEntry>, pattern: Seq<char>)
    ensures
        kept(entries, entries.map_values(matcher(pattern)))
            == entries.filter(matcher(pattern)),
    decreases entries.len(),
{
    reveal(Seq::filter);
    if entries.len() > 0 {
        let f = matcher(pattern);
        assert(entries.map_values(f).drop_last() =~= entries.drop_last().map_values(f));
        lemma_kept_is_filter(entries.drop_last(), pattern);
        assert(entries.map_values(f)[entries.len() - 1] == f(entries.last()));
        assert(entries.filter(f) == if f(entries.last()) {
            entries.drop_last().filter(f).push(entries.last())
        } else {
            entries.drop_last().filter(f)
        });
    } else {
        assert(entries.filter(matcher(pattern)) =~= Seq::<PsEntry>::empty());
    }
}

/// Compiles the regular expression `pattern`. Fails, with the regex engine's
/// explanation, exactly when the pattern is not accepted.
pub fn compile_pattern(pattern: &str) -> (r: Result<Pattern>)
    ensures
        r is Ok <==> regex_compiles(pattern@),
        r is Ok ==> r->Ok_0@ == pattern@,
        r is Err ==> r->Err_0 is RegexError,
{
    match compile(pattern) {
        Ok(p) => Ok(p),
        Err(e) => Err(Error::RegexError { e }),
    }
}

/// Keeps, in order, the entries whose command the compiled pattern matches
/// somewhere.
pub fn select_matching(p: &Pattern, all: &Vec<PsEntry>) -> (r: Vec<PsEntry>)
    ensures
        r@ == all@.filter(matcher(p@)),
{
    let mut keep: Vec<bool> = Vec::new();
    let mut i: usize = 0;
    while i < all.len()
        invariant
            i <= all@.len(),
            keep@ == all@.subrange(0, i as int).map_values(matcher(p@)),
        decreases all@.len() - i,
    {
        let b = pattern_matches(p, all[i].command.as_str());
        keep.push(b);
        assert(all@.subrange(0, i + 1).map_values(matcher(p@))
            =~= all@.subrange(0, i as int).map_values(matcher(p@)).push(b));
        i = i + 1;
    }
    assert(all@.subrange(0, i as int) =~= all@);
    let out = select_flagged(all, &keep);
    proof {
        lemma_kept_is_filter(all@, p@);
    }
    out
}

/// Lists the entries whose command matches the regular expression `pattern`
/// somewhere, in order. Fails when `pattern` is not a valid regular expression.
pub fn list_matches(pattern: &str, all: &Vec<PsEntry>) -> (r: Result<Vec<PsEntry>>)
    ensures
        r is Ok <==> regex_compiles(pattern@),
        r is Ok ==> r->Ok_0@ == all@.filter(matcher(pattern@)),
        r is Err ==> r->Err_0 is RegexError,
{
    let p = compile_pattern(pattern)?;
    Ok(select_matching(&p, all))
}

} // verus!
