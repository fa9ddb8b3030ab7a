use vstd::prelude::*;
use regex::Regex;
use crate::error::MabiError;

verus! {

#[verifier::external_type_specification]
#[verifier::external_body]
pub struct ExRegex(Regex);

/// Whether `Regex::new` accepts `pattern`.
pub uninterp spec fn regex_valid(pattern: Seq<char>) -> bool;

/// Whether the expression compiled from `pattern` matches somewhere in
/// `text` (an unanchored search).
pub uninterp spec fn regex_found(pattern: Seq<char>, text: Seq<char>) -> bool;

/// A compiled entry-name pattern, kept together with its text.
pub struct NameFilter {
    pattern: String,
    re: Regex,
}

impl NameFilter {
    /// The text of the pattern this filter was compiled from.
    pub closed spec fn pattern_view(&self) -> Seq<char> {
        self.pattern@
    }
}

/// `m` is the pattern `p`, a colon, then a reason.
pub open spec fn names_pattern(m: Seq<char>, p: Seq<char>) -> bool {
    m.len() > p.len() && m.take(p.len() as int) == p && m[p.len() as int] == ':'
}

/// Relies on `regex::Regex::new`: the compiled expression, kept with its
/// pattern, exactly when the pattern is accepted; otherwise the pattern, a
/// colon and the reason it was refused.
#[verifier::external_body]
fn compile_filter(pattern: &str) -> (r: Result<NameFilter, String>)
    ensures
        match r {
            Ok(f) => regex_valid(pattern@) && f.pattern_view() == pattern@,
            Err(m) => !regex_valid(pattern@) && names_pattern(m@, pattern@),
        },
{
    Regex::new(pattern)
        .map(|re| NameFilter { pattern: pattern.to_string(), re })
        .map_err(|e| format!("{}:{}", pattern, e))
}

/// Relies on `regex::Regex::find`: whether the filter's expression matches
/// somewhere in `text`.
#[verifier::external_body]
fn filter_finds(f: &NameFilter, text: &str) -> (r: bool)
    ensures
        r == regex_found(f.pattern_view(), text@),
{
    f.re.find(text).is_some()
}

/// Compiles every entry-name pattern, in order. It succeeds exactly when
/// every pattern is accepted; otherwise it reports the first refused one,
/// with its text.
pub fn make_regex(strs: &Vec<String>) -> (r: Result<Vec<NameFilter>, MabiError>)
    ensures
        r is Ok <==> forall|i: int| 0 <= i < strs@.len() ==> regex_valid(strs@[i]@),
        match r {
            Ok(v) => v@.len() == strs@.len() && forall|i: int|
                0 <= i < strs@.len() ==> v@[i].pattern_view() == strs@[i]@,
            Err(e) => exists|j: int|
                0 <= j < strs@.len() && !regex_valid(strs@[j]@) && (forall|k: int|
                    0 <= k < j ==> regex_valid(strs@[k]@)) && (e matches MabiError::InvalidRegexp(
                    m,
                ) && names_pattern(m@, strs@[j]@)),
        },
{
    let mut out: Vec<NameFilter> = Vec::new();
    let mut i: usize = 0;
    while i < strs.len()
        invariant
            i <= strs@.len(),
            out@.len() == i,
            forall|k: int| 0 <= k < i ==> regex_valid(strs@[k]@),
            forall|k: int| 0 <= k < i ==> out@[k].pattern_view() == strs@[k]@,
        decreases strs.len() - i,
    {
        match compile_filter(strs[i].as_str()) {
            Ok(f) => out.push(f),
            Err(msg) => {
                return Err(MabiError::InvalidRegexp(msg));
            },
        }
        i = i + 1;
    }
    Ok(out)
}

/// Whether an entry named `name` is to be extracted: with no filters every
/// entry is, otherwise exactly those that some filter matches.
pub fn is_selected(filters: &Vec<NameFilter>, name: &str) -> (r: bool)
    ensures
        r == (filters@.len() == 0 || exists|i: int|
            0 <= i < filters@.len() && regex_found(filters@[i].pattern_view(), name@)),
{
    if filters.len() == 0 {
        return true;
    }
    let mut i: usize = 0;
    while i < filters.len()
        invariant
            i <= filters@.len(),
            filters@.len() > 0,
            forall|k: int| 0 <= k < i ==> !regex_found(filters@[k].pattern_view(), name@),
        decreases filters.len() - i,
    {
        if filter_finds(&filters[i], name) {
            return true;
        }
        i = i + 1;
    }
    false
}

} // verus!
