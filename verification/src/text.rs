//! Text normalization: trimming, case folding, and the space-to-plus
//! joining used in search queries.
//!
//! Trimming and Unicode case folding are taken from the standard library;
//! their results are functions of the input characters alone and are given
//! the names `trim_of` and `lower_of`.

use vstd::prelude::*;
use vstd::string::StrSliceExecFns;
use vstd::string::StringExecFns;

verus! {

/// The characters of a string after removing leading and trailing
/// whitespace, as `str::trim` computes it.
pub uninterp spec fn trim_of(s: Seq<char>) -> Seq<char>;

/// The characters of a string after Unicode lowercasing, as
/// `str::to_lowercase` computes it.
pub uninterp spec fn lower_of(s: Seq<char>) -> Seq<char>;

/// The comparison form of a field: trimmed, then lowercased.
pub open spec fn norm(s: Seq<char>) -> Seq<char> {
    lower_of(trim_of(s))
}

/// Relies on `str::trim`: removes leading and trailing whitespace, so the
/// result is a substring of the input and never longer than it.
#[verifier::external_body]
pub fn trimmed(s: &str) -> (r: String)
    ensures
        r@ == trim_of(s@),
        r@.len() <= s@.len(),
{
    s.trim().to_owned()
}

/// Relies on `str::to_lowercase`: the result depends on the input
/// characters alone.
#[verifier::external_body]
pub fn lowercased(s: &str) -> (r: String)
    ensures
        r@ == lower_of(s@),
{
    s.to_lowercase()
}

/// Trims, then lowercases: the form in which fields are compared.
pub fn normalized(s: &str) -> (r: String)
    ensures
        r@ == norm(s@),
{
    let t = trimmed(s);
    lowercased(t.as_str())
}

/// True iff the normalized answer equals one of the accepted answers: the
/// test that ends a re-prompting loop.
pub fn match_answer(t_answer: &String, possible: &Vec<String>) -> (r: bool)
    ensures
        r == exists|i: int|
            0 <= i < possible@.len() && (#[trigger] possible@[i])@ == t_answer@,
{
    let mut i: usize = 0;
    while i < possible.len()
        invariant
            0 <= i <= possible@.len(),
            forall|j: int| 0 <= j < i ==> (#[trigger] possible@[j])@ != t_answer@,
        decreases possible@.len() - i,
    {
        if possible[i] == *t_answer {
            assert(possible@[i as int]@ == t_answer@);
            return true;
        }
        i += 1;
    }
    false
}

/// Each space replaced by a plus sign, the join applied to every field of
/// a search query.
pub open spec fn plus_of(s: Seq<char>) -> Seq<char> {
    s.map_values(|c: char| if c == ' ' { '+' } else { c })
}

/// Replaces every space character with a plus sign.
pub fn plus_join(s: &str) -> (r: String)
    ensures
        r@ == plus_of(s@),
{
    let n = s.unicode_len();
    let mut out = String::new();
    let mut i: usize = 0;
    while i < n
        invariant
            0 <= i <= n,
            n == s@.len(),
            out@ == plus_of(s@.take(i as int)),
        decreases n - i,
    {
        let c = s.get_char(i);
        if c == ' ' {
            out.append("+");
            proof {
                reveal_strlit("+");
            }
        } else {
            let piece = s.substring_char(i, i + 1);
            out.append(piece);
        }
        i += 1;
        proof {
            assert(out@ =~= plus_of(s@.take(i as int)));
        }
    }
    proof {
        assert(s@.take(n as int) =~= s@);
    }
    out
}

} // verus!
