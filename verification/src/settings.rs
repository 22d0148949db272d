//! Settings for the header directive, parsed from its parameter string.
//!
//! A parameter string is a comma-separated list of `key=value` pairs.
//! Tokens without a `=` are silently dropped; keys and values are trimmed;
//! when a key occurs more than once the last occurrence wins.  The two
//! boolean settings default to `true` and are turned off only by the exact
//! value `false`; every other value (including typos) keeps the default.

use crate::chars::{
    chars_of, find_from, find_from_at, lemma_find_from_bounds, ws_end, ws_end_at, ws_start_back,
    ws_start_back_at,
};
use vstd::prelude::*;
use vstd::string::*;

verus! {

/// Mathematical model of a header settings record.
pub ghost struct SpecSettings {
    pub reading_time: bool,
    pub submit_issue: bool,
    pub colab: Option<Seq<char>>,
}

pub open spec fn colab_key() -> Seq<char> {
    seq!['c', 'o', 'l', 'a', 'b']
}

pub open spec fn reading_time_key() -> Seq<char> {
    seq!['r', 'e', 'a', 'd', 'i', 'n', 'g', '_', 't', 'i', 'm', 'e']
}

pub open spec fn submit_issue_key() -> Seq<char> {
    seq!['s', 'u', 'b', 'm', 'i', 't', '_', 'i', 's', 's', 'u', 'e']
}

pub open spec fn false_val() -> Seq<char> {
    seq!['f', 'a', 'l', 's', 'e']
}

/// `p` with leading and trailing whitespace removed.
pub open spec fn trim(p: Seq<char>) -> Seq<char> {
    let a = ws_end(p, 0);
    let b = ws_start_back(p, p.len() as int);
    if a <= b {
        p.subrange(a, b)
    } else {
        Seq::empty()
    }
}

/// The `key=value` pair a single comma-separated token yields, split at its
/// first `=`, both sides trimmed; `None` for a token without `=`.
pub open spec fn pair_of_piece(p: Seq<char>) -> Option<(Seq<char>, Seq<char>)> {
    let q = find_from(p, 0, '=');
    if q < p.len() {
        Some((trim(p.subrange(0, q)), trim(p.subrange(q + 1, p.len() as int))))
    } else {
        None
    }
}

/// The pairs of the comma-separated suffix of `s` that starts at `i`, in
/// order of appearance.
pub open spec fn split_pairs_from(s: Seq<char>, i: int) -> Seq<(Seq<char>, Seq<char>)>
    decreases s.len() - i,
    via split_pairs_from_decreases
{
    if i < 0 || i > s.len() {
        Seq::empty()
    } else {
        let e = find_from(s, i, ',');
        let head = pair_of_piece(s.subrange(i, e));
        let rest = if e < s.len() {
            split_pairs_from(s, e + 1)
        } else {
            Seq::empty()
        };
        match head {
            Some(kv) => seq![kv] + rest,
            None => rest,
        }
    }
}

#[via_fn]
proof fn split_pairs_from_decreases(s: Seq<char>, i: int) {
    if 0 <= i <= s.len() {
        lemma_find_from_bounds(s, i, ',');
    }
}

/// The pairs of the whole parameter string `s`.
pub open spec fn split_pairs(s: Seq<char>) -> Seq<(Seq<char>, Seq<char>)> {
    split_pairs_from(s, 0)
}

/// The value of key `k`, taking the last occurrence when `k` repeats.
pub open spec fn lookup(ps: Seq<(Seq<char>, Seq<char>)>, k: Seq<char>) -> Option<Seq<char>>
    decreases ps.len(),
{
    if ps.len() == 0 {
        None
    } else if ps[ps.len() - 1].0 == k {
        Some(ps[ps.len() - 1].1)
    } else {
        lookup(ps.drop_last(), k)
    }
}

pub open spec fn default_settings() -> SpecSettings {
    SpecSettings { reading_time: true, submit_issue: true, colab: None }
}

/// The settings a parameter string denotes: `colab` is taken verbatim, and a
/// boolean default is overridden only by the exact value `false`.
pub open spec fn settings_of_params(s: Seq<char>) -> SpecSettings {
    let ps = split_pairs(s);
    SpecSettings {
        reading_time: lookup(ps, reading_time_key()) != Some(false_val()),
        submit_issue: lookup(ps, submit_issue_key()) != Some(false_val()),
        colab: lookup(ps, colab_key()),
    }
}

/// The settings of a directive: defaults when it carries no parameter blob,
/// otherwise the parse of the trimmed blob.
pub open spec fn settings_of(params: Option<Seq<char>>) -> SpecSettings {
    match params {
        None => default_settings(),
        Some(p) => settings_of_params(trim(p)),
    }
}

/// Settings of the `aipr_header` directive.
#[derive(Debug, Clone, PartialEq)]
pub struct AIPRHeaderSettings {
    pub reading_time: bool,
    pub submit_issue: bool,
    pub colab: Option<String>,
}

impl View for AIPRHeaderSettings {
    type V = SpecSettings;

    open spec fn view(&self) -> SpecSettings {
        SpecSettings {
            reading_time: self.reading_time,
            submit_issue: self.submit_issue,
            colab: self.colab.deep_view(),
        }
    }
}

impl Default for AIPRHeaderSettings {
    fn default() -> (r: Self)
        ensures
            r@ == default_settings(),
    {
        AIPRHeaderSettings { reading_time: true, submit_issue: true, colab: None }
    }
}

/// `p` with leading and trailing whitespace removed.
pub fn trim_str(p: &str) -> (r: String)
    ensures
        r@ == trim(p@),
{
    let cs = chars_of(p);
    let a = ws_end_at(&cs, 0);
    let b = ws_start_back_at(&cs, cs.len());
    if a <= b {
        p.substring_char(a, b).to_owned()
    } else {
        String::new()
    }
}

fn split_once_eq(piece: &str) -> (r: Option<(String, String)>)
    ensures
        r.deep_view() == pair_of_piece(piece@),
{
    let pcs = chars_of(piece);
    let q = find_from_at(&pcs, 0, '=');
    if q < pcs.len() {
        let k = trim_str(piece.substring_char(0, q));
        let v = trim_str(piece.substring_char(q + 1, pcs.len()));
        Some((k, v))
    } else {
        None
    }
}

/// Parse a parameter string into its `key=value` pairs, in order of
/// appearance; tokens without `=` are dropped.
pub fn _parse_param_str(param_str: &str) -> (r: Vec<(String, String)>)
    ensures
        r.deep_view() == split_pairs(param_str@),
{
    let cs = chars_of(param_str);
    let n = cs.len();
    let mut out: Vec<(String, String)> = Vec::new();
    let mut i: usize = 0;
    loop
        invariant_except_break
            split_pairs(param_str@) == out.deep_view() + split_pairs_from(param_str@, i as int),
        invariant
            n == param_str@.len(),
            cs@ == param_str@,
            i <= n,
        ensures
            split_pairs(param_str@) == out.deep_view(),
        decreases n - i,
    {
        let ghost prev = out.deep_view();
        let e = find_from_at(&cs, i, ',');
        let piece = param_str.substring_char(i, e);
        match split_once_eq(piece) {
            Some(kv) => {
                proof {
                    let ghost kvd = (kv.0@, kv.1@);
                    assert(pair_of_piece(param_str@.subrange(i as int, e as int)) == Some(kvd));
                }
                out.push(kv);
                proof {
                    assert(out.deep_view() =~= prev + seq![out.deep_view()[prev.len() as int]]);
                }
            },
            None => {},
        }
        if e < n {
            proof {
                assert(split_pairs_from(param_str@, i as int) == (match pair_of_piece(
                    param_str@.subrange(i as int, e as int),
                ) {
                    Some(kv) => seq![kv] + split_pairs_from(param_str@, e + 1 as int),
                    None => split_pairs_from(param_str@, e + 1 as int),
                }));
            }
            i = e + 1;
        } else {
            proof {
                assert(split_pairs_from(param_str@, i as int) == (match pair_of_piece(
                    param_str@.subrange(i as int, e as int),
                ) {
                    Some(kv) => seq![kv] + Seq::<(Seq<char>, Seq<char>)>::empty(),
                    None => Seq::<(Seq<char>, Seq<char>)>::empty(),
                }));
                assert(out.deep_view() =~= split_pairs(param_str@));
            }
            break;
        }
    }
    out
}

fn lookup_param(ps: &Vec<(String, String)>, k: &String) -> (r: Option<String>)
    ensures
        r.deep_view() == lookup(ps.deep_view(), k@),
{
    let mut j = ps.len();
    proof {
        assert(ps.deep_view().take(ps.len() as int) =~= ps.deep_view());
    }
    while j > 0
        invariant
            j <= ps.len(),
            lookup(ps.deep_view(), k@) == lookup(ps.deep_view().take(j as int), k@),
        decreases j,
    {
        proof {
            assert(ps.deep_view().take(j as int).drop_last() =~= ps.deep_view().take(
                j - 1 as int,
            ));
            assert(ps.deep_view().take(j as int).last() == ps.deep_view()[j - 1 as int]);
        }
        if ps[j - 1].0 == *k {
            return Some(ps[j - 1].1.clone());
        }
        j = j - 1;
    }
    proof {
        assert(ps.deep_view().take(0) =~= Seq::<(Seq<char>, Seq<char>)>::empty());
    }
    None
}

impl AIPRHeaderSettings {
    /// Parse header settings from a parameter string.
    pub fn from_param_str(param_str: &str) -> (r: Self)
        ensures
            r@ == settings_of_params(param_str@),
    {
        proof {
            reveal_strlit("colab");
            reveal_strlit("reading_time");
            reveal_strlit("submit_issue");
            reveal_strlit("false");
            assert("colab"@ =~= colab_key());
            assert("reading_time"@ =~= reading_time_key());
            assert("submit_issue"@ =~= submit_issue_key());
            assert("false"@ =~= false_val());
        }
        let ps = _parse_param_str(param_str);
        let colab = lookup_param(&ps, &String::from_str("colab"));
        let rt = lookup_param(&ps, &String::from_str("reading_time"));
        let si = lookup_param(&ps, &String::from_str("submit_issue"));
        let false_str = String::from_str("false");
        let reading_time = match &rt {
            Some(v) => !(*v == false_str),
            None => true,
        };
        let submit_issue = match &si {
            Some(v) => !(*v == false_str),
            None => true,
        };
        AIPRHeaderSettings { reading_time, submit_issue, colab }
    }
}

} // verus!
