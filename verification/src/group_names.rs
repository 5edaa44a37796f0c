//! Filtering process-group names by a name pattern.  A pattern is a regular
//! expression in which `*` stands for any run of characters; it must match a
//! whole name.  An empty pattern keeps every name, and so does a pattern that
//! is not a valid regular expression.

use vstd::prelude::*;

use crate::text::owned;

verus! {

/// A compiled regular expression of the `regex` crate.
#[verifier::external_type_specification]
#[verifier::external_body]
pub struct ExRegex(regex::Regex);

/// Whether `regex::Regex::new` accepts `pattern`.
pub uninterp spec fn regex_compiles(pattern: Seq<char>) -> bool;

/// Whether the regular expression compiled from `pattern` matches somewhere
/// in `text` (`regex::Regex::is_match`).
pub uninterp spec fn regex_finds(pattern: Seq<char>, text: Seq<char>) -> bool;

/// A regular expression together with the pattern it was compiled from.
pub struct NamePattern {
    regex: regex::Regex,
    source: String,
}

impl NamePattern {
    /// The pattern the expression was compiled from.
    pub closed spec fn source(&self) -> Seq<char> {
        self.source@
    }
}

/// `regex::Regex::new`: the compiled expression when the crate accepts
/// `pattern`, else `None`.  Which patterns it accepts is named, not stated.
#[verifier::external_body]
fn compile_pattern(pattern: &str) -> (r: Option<NamePattern>)
    ensures
        r is Some <==> regex_compiles(pattern@),
        r matches Some(p) ==> p.source() == pattern@,
{
    match regex::Regex::new(pattern) {
        Ok(regex) => Some(NamePattern { regex, source: pattern.to_string() }),
        Err(_) => None,
    }
}

/// `regex::Regex::is_match`: whether the expression matches somewhere in
/// `text`; named by the pattern and the text.
#[verifier::external_body]
fn pattern_finds(p: &NamePattern, text: &str) -> (b: bool)
    ensures
        b == regex_finds(p.source(), text@),
{
    p.regex.is_match(text)
}

/// `s` with every `*` replaced by `.*`.
pub open spec fn widened(s: Seq<char>) -> Seq<char>
    decreases s.len(),
{
    if s.len() == 0 {
        Seq::empty()
    } else {
        widened(s.drop_last()) + if s.last() == '*' { seq!['.', '*'] } else { seq![s.last()] }
    }
}

/// The regular expression a name pattern stands for: `*` widened to `.*`,
/// anchored at both ends.
pub open spec fn anchored(name_pattern: Seq<char>) -> Seq<char> {
    seq!['^'] + widened(name_pattern) + seq!['$']
}

/// The regular expression a name pattern stands for.
pub fn anchored_pattern(name_pattern: &str) -> (r: String)
    ensures
        r@ == anchored(name_pattern@),
{
    let n = name_pattern.unicode_len();
    let mut out = owned("^");
    let mut i: usize = 0;
    proof {
        reveal_strlit("^");
        assert(name_pattern@.take(0) =~= Seq::<char>::empty());
        assert(out@ =~= seq!['^'] + widened(name_pattern@.take(0)));
    }
    while i < n
        invariant
            n == name_pattern@.len(),
            i <= n,
            out@ == seq!['^'] + widened(name_pattern@.take(i as int)),
        decreases n - i,
    {
        let c = name_pattern.get_char(i);
        let ghost before = out@;
        proof {
            assert(name_pattern@.take(i + 1).drop_last() =~= name_pattern@.take(i as int));
            assert(name_pattern@.take(i + 1).last() == c);
        }
        if c == '*' {
            out.append(".*");
            proof {
                reveal_strlit(".*");
                assert(out@ =~= before + seq!['.', '*']);
            }
        } else {
            out.append(name_pattern.substring_char(i, i + 1));
            proof {
                assert(name_pattern@.subrange(i as int, i + 1) =~= seq![c]);
                assert(out@ =~= before + seq![c]);
            }
        }
        proof {
            assert(out@ =~= seq!['^'] + widened(name_pattern@.take(i + 1)));
        }
        i = i + 1;
    }
    out.append("$");
    proof {
        reveal_strlit("$");
        assert(name_pattern@.take(n as int) =~= name_pattern@);
        assert(out@ =~= anchored(name_pattern@));
    }
    out
}

/// The names whose flag is set, in order.
pub open spec fn flagged(names: Seq<Seq<char>>, keep: Seq<bool>) -> Seq<Seq<char>>
    decreases names.len(),
{
    if names.len() == 0 || keep.len() != names.len() {
        Seq::empty()
    } else {
        let rest = flagged(names.drop_last(), keep.drop_last());
        if keep.last() { rest.push(names.last()) } else { rest }
    }
}

/// Keeps the names whose flag in `keep` is set, in order.
pub fn keep_flagged(names: &Vec<String>, keep: &Vec<bool>) -> (r: Vec<String>)
    requires
        keep@.len() == names@.len(),
    ensures
        r@.map_values(|s: String| s@) == flagged(names@.map_values(|s: String| s@), keep@),
{
    let ghost nv = names@.map_values(|s: String| s@);
    let mut out: Vec<String> = Vec::new();
    let mut i: usize = 0;
    proof {
        assert(out@.map_values(|s: String| s@) =~= Seq::<Seq<char>>::empty());
        assert(flagged(nv.take(0), keep@.take(0)) =~= Seq::<Seq<char>>::empty());
    }
    while i < names.len()
        invariant
            nv == names@.map_values(|s: String| s@),
            keep@.len() == names@.len(),
            i <= names@.len(),
            out@.map_values(|s: String| s@) == flagged(nv.take(i as int), keep@.take(i as int)),
        decreases names.len() - i,
    {
        proof {
            assert(nv.take(i + 1).drop_last() =~= nv.take(i as int));
            assert(keep@.take(i + 1).drop_last() =~= keep@.take(i as int));
            assert(nv.take(i + 1).last() == names@[i as int]@);
            assert(keep@.take(i + 1).last() == keep@[i as int]);
        }
        if keep[i] {
            let ghost before = out@.map_values(|s: String| s@);
            out.push(names[i].clone());
            proof {
                assert(out@.map_values(|s: String| s@) =~= before.push(names@[i as int]@));
            }
        }
        i = i + 1;
    }
    proof {
        assert(nv.take(names@.len() as int) =~= nv);
        assert(keep@.take(names@.len() as int) =~= keep@);
    }
    out
}

/// Whether the regular expression `pattern` finds a match in each name.
pub open spec fn matches_of(pattern: Seq<char>, names: Seq<Seq<char>>) -> Seq<bool> {
    names.map_values(|n: Seq<char>| regex_finds(pattern, n))
}

/// The group names a listing with `name_pattern` shows: every name for an
/// empty pattern or one that does not compile as a regular expression; else
/// the names the anchored pattern matches, in order.
pub fn filter_group_names(names: Vec<String>, name_pattern: &str) -> (r: Vec<String>)
    ensures
        ({
            let nv = names@.map_values(|s: String| s@);
            let p = anchored(name_pattern@);
            r@.map_values(|s: String| s@) == if name_pattern@.len() == 0 || !regex_compiles(p) {
                nv
            } else {
                flagged(nv, matches_of(p, nv))
            }
        }),
{
    if name_pattern.unicode_len() == 0 {
        return names;
    }
    let pattern = anchored_pattern(name_pattern);
    match compile_pattern(pattern.as_str()) {
        None => names,
        Some(compiled) => {
            let ghost nv = names@.map_values(|s: String| s@);
            let mut keep: Vec<bool> = Vec::new();
            let mut i: usize = 0;
            while i < names.len()
                invariant
                    nv == names@.map_values(|s: String| s@),
                    compiled.source() == anchored(name_pattern@),
                    i <= names@.len(),
                    keep@.len() == i,
                    forall|k: int| 0 <= k < i ==> keep@[k] == regex_finds(anchored(name_pattern@), #[trigger] nv[k]),
                decreases names.len() - i,
            {
                let found = pattern_finds(&compiled, names[i].as_str());
                keep.push(found);
                i = i + 1;
            }
            proof {
                assert(keep@ =~= matches_of(anchored(name_pattern@), nv));
            }
            keep_flagged(&names, &keep)
        },
    }
}

} // verus!
