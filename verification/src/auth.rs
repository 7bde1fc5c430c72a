//! Parsing the redirect URL pasted back during the authorization handshake:
//! the authorization code and the state token are the second and fourth
//! fields when the trimmed URL is split on `=` and `&`.

use vstd::prelude::*;
use vstd::string::StrSliceExecFns;
use vstd::string::StringExecFns;

use crate::text::trim_of;
use crate::text::trimmed;

verus! {

/// The separators of the redirect URL's query string.
pub open spec fn is_url_delim(c: char) -> bool {
    c == '=' || c == '&'
}

/// The fields of `s` split on `=` and `&`: every delimiter separates two
/// fields, so `n` delimiters give `n + 1` fields, empty ones included.
pub open spec fn split_fields(s: Seq<char>) -> Seq<Seq<char>>
    decreases s.len(),
{
    if s.len() == 0 {
        seq![Seq::<char>::empty()]
    } else if is_url_delim(s[0]) {
        seq![Seq::<char>::empty()] + split_fields(s.drop_first())
    } else {
        let rest = split_fields(s.drop_first());
        seq![seq![s[0]] + rest[0]] + rest.drop_first()
    }
}

proof fn lemma_split_nonempty(s: Seq<char>)
    ensures
        split_fields(s).len() >= 1,
    decreases s.len(),
{
    if s.len() > 0 {
        lemma_split_nonempty(s.drop_first());
    }
}

proof fn lemma_split_push(t: Seq<char>, c: char)
    ensures
        split_fields(t).len() >= 1,
        is_url_delim(c) ==> split_fields(t.push(c)) == split_fields(t) + seq![
            Seq::<char>::empty(),
        ],
        !is_url_delim(c) ==> split_fields(t.push(c)) == split_fields(t).update(
            split_fields(t).len() - 1,
            split_fields(t).last().push(c),
        ),
    decreases t.len(),
{
    lemma_split_nonempty(t);
    if t.len() == 0 {
        if is_url_delim(c) {
            assert(t.push(c)[0] == c);
            assert(t.push(c).drop_first() =~= t);
            assert(split_fields(t.push(c)) =~= split_fields(t) + seq![Seq::<char>::empty()]);
        } else {
            assert(t.push(c)[0] == c);
            assert(t.push(c).drop_first() =~= t);
            assert(seq![c] + split_fields(t)[0] =~= Seq::<char>::empty().push(c));
            assert(split_fields(t.push(c)) =~= split_fields(t).update(
                split_fields(t).len() - 1,
                split_fields(t).last().push(c),
            ));
        }
    } else {
        lemma_split_push(t.drop_first(), c);
        lemma_split_nonempty(t.drop_first());
        assert(t.push(c)[0] == t[0]);
        assert(t.push(c).drop_first() =~= t.drop_first().push(c));
        if is_url_delim(t[0]) {
            assert(split_fields(t.push(c)) =~= seq![Seq::<char>::empty()] + split_fields(
                t.drop_first().push(c),
            ));
            if is_url_delim(c) {
                assert(split_fields(t.push(c)) =~= split_fields(t) + seq![Seq::<char>::empty()]);
            } else {
                assert(split_fields(t.push(c)) =~= split_fields(t).update(
                    split_fields(t).len() - 1,
                    split_fields(t).last().push(c),
                ));
            }
        } else {
            let rest = split_fields(t.drop_first());
            let restc = split_fields(t.drop_first().push(c));
            if is_url_delim(c) {
                assert(restc == rest + seq![Seq::<char>::empty()]);
                assert(restc[0] == rest[0]);
                assert(restc.drop_first() =~= rest.drop_first() + seq![Seq::<char>::empty()]);
                assert(split_fields(t.push(c)) =~= split_fields(t) + seq![Seq::<char>::empty()]);
            } else {
                assert(restc == rest.update(rest.len() - 1, rest.last().push(c)));
                if rest.len() == 1 {
                    assert(restc[0] == rest[0].push(c));
                    assert(restc.drop_first() =~= rest.drop_first());
                    assert(seq![seq![t[0]] + restc[0]] + restc.drop_first() =~= split_fields(
                        t,
                    ).update(split_fields(t).len() - 1, split_fields(t).last().push(c)));
                } else {
                    assert(restc[0] == rest[0]);
                    assert(restc.drop_first() =~= rest.drop_first().update(
                        rest.drop_first().len() - 1,
                        rest.drop_first().last().push(c),
                    ));
                    assert(split_fields(t).last() == rest.last());
                    assert(seq![seq![t[0]] + restc[0]] + restc.drop_first() =~= split_fields(
                        t,
                    ).update(split_fields(t).len() - 1, split_fields(t).last().push(c)));
                }
            }
        }
    }
}

/// Splits a string on `=` and `&`, empty fields preserved.
pub fn split_url_fields(s: &str) -> (r: Vec<String>)
    ensures
        r@.map_values(|f: String| f@) == split_fields(s@),
{
    let n = s.unicode_len();
    let mut fields: Vec<String> = Vec::new();
    let mut cur = String::new();
    let mut i: usize = 0;
    proof {
        assert(s@.take(0) =~= Seq::<char>::empty());
        assert(fields@.map_values(|f: String| f@).push(cur@) =~= split_fields(s@.take(0)));
    }
    while i < n
        invariant
            0 <= i <= n,
            n == s@.len(),
            fields@.map_values(|f: String| f@).push(cur@) == split_fields(s@.take(i as int)),
        decreases n - i,
    {
        let c = s.get_char(i);
        proof {
            assert(s@.take(i as int + 1) =~= s@.take(i as int).push(s@[i as int]));
            lemma_split_push(s@.take(i as int), s@[i as int]);
        }
        if c == '=' || c == '&' {
            fields.push(cur);
            cur = String::new();
            proof {
                assert(fields@.map_values(|f: String| f@).push(cur@) =~= split_fields(
                    s@.take(i as int + 1),
                ));
            }
        } else {
            let ghost prev_cur = cur@;
            let piece = s.substring_char(i, i + 1);
            cur.append(piece);
            proof {
                assert(cur@ =~= prev_cur.push(s@[i as int]));
                let prev = split_fields(s@.take(i as int));
                assert(prev.last() == prev[prev.len() - 1]);
                assert(fields@.map_values(|f: String| f@).push(cur@) =~= prev.update(
                    prev.len() - 1,
                    prev.last().push(s@[i as int]),
                ));
            }
        }
        i += 1;
    }
    proof {
        assert(s@.take(n as int) =~= s@);
    }
    fields.push(cur);
    proof {
        assert(fields@.map_values(|f: String| f@) =~= split_fields(s@));
    }
    fields
}

/// Extracts the authorization code and the state token from the pasted
/// redirect URL: the second and fourth fields of the trimmed URL split on
/// `=` and `&`. A URL with fewer fields is malformed.
pub fn parse_redirect_url(url: &str) -> (r: Option<(String, String)>)
    ensures
        match r {
            Some(pair) => split_fields(trim_of(url@)).len() >= 4 && pair.0@ == split_fields(
                trim_of(url@),
            )[1] && pair.1@ == split_fields(trim_of(url@))[3],
            None => split_fields(trim_of(url@)).len() < 4,
        },
{
    let t = trimmed(url);
    let fields = split_url_fields(t.as_str());
    if fields.len() < 4 {
        return None;
    }
    let code = fields[1].clone();
    let state = fields[3].clone();
    Some((code, state))
}

} // verus!
