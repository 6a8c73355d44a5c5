//! Character-level helpers for working with `&str` values, together with
//! the specification of comma-splitting that the manifest format uses.

use vstd::prelude::*;
use vstd::string::StrSliceExecFns;

verus! {

/// Compares two string slices character by character.
pub fn str_eq(a: &str, b: &str) -> (r: bool)
    ensures
        r == (a@ == b@),
{
    let alen = a.unicode_len();
    let blen = b.unicode_len();
    if alen != blen {
        return false;
    }
    let mut i: usize = 0;
    while i < alen
        invariant
            i <= alen,
            forall|j: int| 0 <= j < i ==> a@[j] == b@[j],
        decreases alen - i,
    {
        if a.get_char(i) != b.get_char(i) {
            return false;
        }
        i = i + 1;
    }
    proof {
        assert(a@ =~= b@);
    }
    true
}

/// Tests whether `p` is a prefix of `s`, character by character.
pub fn str_starts_with(s: &str, p: &str) -> (r: bool)
    ensures
        r == p@.is_prefix_of(s@),
{
    let slen = s.unicode_len();
    let plen = p.unicode_len();
    if plen > slen {
        return false;
    }
    let mut i: usize = 0;
    while i < plen
        invariant
            i <= plen,
            forall|j: int| 0 <= j < i ==> s@[j] == p@[j],
        decreases plen - i,
    {
        if s.get_char(i) != p.get_char(i) {
            return false;
        }
        i = i + 1;
    }
    proof {
        assert(p@ =~= s@.subrange(0, p@.len() as int));
    }
    true
}

/// Index of the first comma in `s`, if any.
pub open spec fn find_comma(s: Seq<char>) -> Option<int>
    decreases s.len(),
{
    if s.len() == 0 {
        None
    } else if s[0] == ',' {
        Some(0int)
    } else {
        match find_comma(s.skip(1)) {
            Some(i) => Some(i + 1),
            None => None,
        }
    }
}

/// What `find_comma` returns: the position of the first comma, or `None`
/// when the sequence holds no comma at all.
pub proof fn lemma_find_comma(s: Seq<char>)
    ensures
        match find_comma(s) {
            Some(i) => 0 <= i < s.len() && s[i] == ',' && forall|j: int| 0 <= j < i ==> s[j] != ',',
            None => forall|j: int| 0 <= j < s.len() ==> s[j] != ',',
        },
    decreases s.len(),
{
    if s.len() > 0 && s[0] != ',' {
        lemma_find_comma(s.skip(1));
        assert(forall|j: int| 0 <= j < s.len() - 1 ==> s.skip(1)[j] == s[j + 1]);
        match find_comma(s.skip(1)) {
            Some(i) => {
                assert(s.skip(1)[i] == s[i + 1]);
                assert(forall|j: int| 1 <= j < i + 1 ==> s[j] == s.skip(1)[j - 1]);
            },
            None => {
                assert(forall|j: int| 1 <= j < s.len() ==> s[j] == s.skip(1)[j - 1]);
            },
        }
    }
}

/// Number of commas in `s`.
pub open spec fn count_commas(s: Seq<char>) -> nat
    decreases s.len(),
{
    if s.len() == 0 {
        0
    } else {
        (if s[0] == ',' {
            1nat
        } else {
            0nat
        }) + count_commas(s.skip(1))
    }
}

/// Splitting `s` on commas into at most `n` tokens: the first `n - 1`
/// commas separate tokens and the final token takes whatever remains.
/// This matches splitting a line into a bounded number of fields, so a
/// trailing field may itself contain commas.
pub open spec fn split_n(s: Seq<char>, n: nat) -> Seq<Seq<char>>
    decreases n,
{
    if n == 0 {
        Seq::empty()
    } else if n == 1 {
        seq![s]
    } else {
        match find_comma(s) {
            Some(i) => seq![s.take(i)] + split_n(s.skip(i + 1), (n - 1) as nat),
            None => seq![s],
        }
    }
}

/// Splitting `s` on every comma.
pub open spec fn split_all(s: Seq<char>) -> Seq<Seq<char>> {
    split_n(s, count_commas(s) + 1)
}

/// Removing the part up to and including the first comma removes exactly
/// one comma from the count.
pub proof fn lemma_count_commas_skip(s: Seq<char>, i: int)
    requires
        find_comma(s) == Some(i),
    ensures
        count_commas(s) == 1 + count_commas(s.skip(i + 1)),
    decreases s.len(),
{
    lemma_find_comma(s);
    if s[0] == ',' {
        assert(s.skip(1) =~= s.skip(i + 1));
    } else {
        lemma_count_commas_skip(s.skip(1), i - 1);
        assert(s.skip(1).skip(i) =~= s.skip(i + 1));
    }
}

/// With no comma present the count is zero.
pub proof fn lemma_count_commas_none(s: Seq<char>)
    requires
        find_comma(s) is None,
    ensures
        count_commas(s) == 0,
    decreases s.len(),
{
    if s.len() > 0 {
        lemma_count_commas_none(s.skip(1));
    }
}

/// Unbounded splitting steps past the first comma one token at a time.
pub proof fn lemma_split_all_step(s: Seq<char>)
    ensures
        match find_comma(s) {
            Some(i) => split_all(s) == seq![s.take(i)] + split_all(s.skip(i + 1)),
            None => split_all(s) == seq![s],
        },
{
    match find_comma(s) {
        Some(i) => {
            lemma_count_commas_skip(s, i);
        },
        None => {
            lemma_count_commas_none(s);
        },
    }
}

/// Finds the first comma of `s`, as `find_comma` describes it.
pub fn find_first_comma(s: &str) -> (r: Option<usize>)
    ensures
        match r {
            Some(i) => find_comma(s@) == Some(i as int),
            None => find_comma(s@) is None,
        },
{
    let n = s.unicode_len();
    let mut i: usize = 0;
    while i < n
        invariant
            i <= n,
            forall|j: int| 0 <= j < i ==> s@[j] != ',',
        decreases n - i,
    {
        if s.get_char(i) == ',' {
            proof {
                lemma_find_comma(s@);
            }
            return Some(i);
        }
        i = i + 1;
    }
    proof {
        lemma_find_comma(s@);
    }
    None
}

/// Splits `s` on commas into at most `limit` tokens, the bounded way
/// `split_n` describes: only the first `limit - 1` commas separate tokens.
pub fn split_commas_limited(s: &str, limit: usize) -> (r: Vec<String>)
    ensures
        r.deep_view() == split_n(s@, limit as nat),
{
    let mut tokens: Vec<String> = Vec::new();
    if limit == 0 {
        proof {
            assert(tokens.deep_view() =~= split_n(s@, 0));
        }
        return tokens;
    }
    let mut rest: &str = s;
    loop
        invariant
            tokens.len() < limit,
            split_n(s@, limit as nat) =~= tokens.deep_view() + split_n(
                rest@,
                (limit - tokens.len()) as nat,
            ),
        decreases limit - tokens.len(),
    {
        if tokens.len() + 1 == limit {
            break;
        }
        match find_first_comma(rest) {
            None => {
                break;
            },
            Some(i) => {
                proof {
                    lemma_find_comma(rest@);
                }
                let ghost old_tokens = tokens.deep_view();
                let ghost old_rest = rest@;
                let n = rest.unicode_len();
                let tok = rest.substring_char(0, i);
                tokens.push(tok.to_owned());
                rest = rest.substring_char(i + 1, n);
                proof {
                    assert(old_rest.subrange(0, i as int) =~= old_rest.take(i as int));
                    assert(old_rest.subrange(i + 1, old_rest.len() as int) =~= old_rest.skip(
                        i + 1,
                    ));
                    assert(tokens.deep_view() =~= old_tokens + seq![old_rest.take(i as int)]);
                    assert(tokens.deep_view() + split_n(rest@, (limit - tokens.len()) as nat)
                        =~= old_tokens + (seq![old_rest.take(i as int)] + split_n(
                        old_rest.skip(i + 1),
                        (limit - tokens.len()) as nat,
                    )));
                }
            },
        }
    }
    let ghost before_last = tokens.deep_view();
    tokens.push(rest.to_owned());
    proof {
        assert(tokens.deep_view() =~= before_last + seq![rest@]);
    }
    tokens
}

/// Splits `s` on every comma, as `split_all` describes.
pub fn split_commas_all(s: &str) -> (r: Vec<String>)
    ensures
        r.deep_view() == split_all(s@),
{
    let mut tokens: Vec<String> = Vec::new();
    let mut rest: &str = s;
    loop
        invariant
            split_all(s@) =~= tokens.deep_view() + split_all(rest@),
        decreases rest@.len(),
    {
        match find_first_comma(rest) {
            None => {
                break;
            },
            Some(i) => {
                proof {
                    lemma_find_comma(rest@);
                    lemma_split_all_step(rest@);
                }
                let ghost old_tokens = tokens.deep_view();
                let ghost old_rest = rest@;
                let n = rest.unicode_len();
                let tok = rest.substring_char(0, i);
                tokens.push(tok.to_owned());
                rest = rest.substring_char(i + 1, n);
                proof {
                    assert(old_rest.subrange(0, i as int) =~= old_rest.take(i as int));
                    assert(old_rest.subrange(i + 1, old_rest.len() as int) =~= old_rest.skip(
                        i + 1,
                    ));
                    assert(tokens.deep_view() =~= old_tokens + seq![old_rest.take(i as int)]);
                    assert(tokens.deep_view() + split_all(rest@) =~= old_tokens + (seq![
                        old_rest.take(i as int),
                    ] + split_all(old_rest.skip(i + 1))));
                }
            },
        }
    }
    proof {
        lemma_split_all_step(rest@);
    }
    let ghost before_last = tokens.deep_view();
    tokens.push(rest.to_owned());
    proof {
        assert(tokens.deep_view() =~= before_last + seq![rest@]);
    }
    tokens
}

} // verus!

