//! Scanner for Markdown links `[text](url)`.
//!
//! The link text may contain `]` escaped by a backslash, and the URL may
//! contain `)` escaped the same way.  The scan is greedy: candidate closing
//! delimiters run up to and including the first unescaped one, and the scan
//! prefers the latest candidate that lets the rest of the link match.  Only
//! links whose URL starts with `http://` or `https://` enter the replaceable
//! stream; other matches fall through as ordinary text, though their span is
//! still consumed by the scan.

use crate::chars::chars_of;
use vstd::prelude::*;
use vstd::string::*;

verus! {

/// Candidate closing positions for `delim` from `j` on: every `delim`
/// preceded by a backslash, up to and including the first one that is not.
pub open spec fn close_chain(s: Seq<char>, j: int, delim: char) -> Seq<int>
    decreases s.len() - j,
{
    if j < 0 || j >= s.len() {
        Seq::empty()
    } else if s[j] == delim {
        if j > 0 && s[j - 1] == '\\' {
            seq![j] + close_chain(s, j + 1, delim)
        } else {
            seq![j]
        }
    } else {
        close_chain(s, j + 1, delim)
    }
}

pub proof fn lemma_close_chain_bounds(s: Seq<char>, j: int, delim: char)
    ensures
        forall|k: int|
            0 <= k < close_chain(s, j, delim).len() ==> j <= #[trigger] close_chain(
                s,
                j,
                delim,
            )[k] < s.len(),
    decreases s.len() - j,
{
    if 0 <= j < s.len() {
        lemma_close_chain_bounds(s, j + 1, delim);
        let ch = close_chain(s, j, delim);
        let rest = close_chain(s, j + 1, delim);
        if s[j] == delim {
            if j > 0 && s[j - 1] == '\\' {
                assert forall|k: int| 0 <= k < ch.len() implies j <= #[trigger] ch[k] < s.len() by {
                    if k > 0 {
                        assert(ch[k] == rest[k - 1]);
                    }
                }
            }
        } else {
            assert forall|k: int| 0 <= k < ch.len() implies j <= #[trigger] ch[k] < s.len() by {
                assert(ch[k] == rest[k]);
            }
        }
    }
}

/// Greedy completion of a link match: take the latest usable text-closing
/// candidate, and for it the latest URL-closing candidate.
pub open spec fn md_try(s: Seq<char>, elist: Seq<int>) -> Option<(int, int)>
    decreases elist.len(),
{
    if elist.len() == 0 {
        None
    } else {
        let e = elist.last();
        let fl = close_chain(s, e + 2, ')');
        if e + 1 < s.len() && s[e + 1] == '(' && fl.len() > 0 {
            Some((e, fl.last()))
        } else {
            md_try(s, elist.drop_last())
        }
    }
}

/// The Markdown link starting at `i`, if one matches there: the positions of
/// its closing `]` and closing `)`.
pub open spec fn md_match_at(s: Seq<char>, i: int) -> Option<(int, int)> {
    if 0 <= i < s.len() && s[i] == '[' {
        md_try(s, close_chain(s, i + 1, ']'))
    } else {
        None
    }
}

proof fn lemma_md_try_bounds(s: Seq<char>, elist: Seq<int>, lo: int)
    requires
        forall|k: int| 0 <= k < elist.len() ==> lo <= #[trigger] elist[k] < s.len(),
    ensures
        md_try(s, elist) matches Some(ef) ==> lo <= ef.0 && ef.0 + 2 <= ef.1 && ef.1 < s.len(),
    decreases elist.len(),
{
    if elist.len() > 0 {
        let e = elist.last();
        let fl = close_chain(s, e + 2, ')');
        lemma_close_chain_bounds(s, e + 2, ')');
        if !(e + 1 < s.len() && s[e + 1] == '(' && fl.len() > 0) {
            lemma_md_try_bounds(s, elist.drop_last(), lo);
        }
    }
}

pub proof fn lemma_md_match_bounds(s: Seq<char>, i: int)
    requires
        0 <= i <= s.len(),
    ensures
        md_match_at(s, i) matches Some(ef) ==> i + 1 <= ef.0 && ef.0 + 2 <= ef.1 && ef.1
            < s.len(),
{
    if i < s.len() && s[i] == '[' {
        lemma_close_chain_bounds(s, i + 1, ']');
        lemma_md_try_bounds(s, close_chain(s, i + 1, ']'), i + 1);
    }
}

pub open spec fn http_prefix() -> Seq<char> {
    seq!['h', 't', 't', 'p', ':', '/', '/']
}

pub open spec fn https_prefix() -> Seq<char> {
    seq!['h', 't', 't', 'p', 's', ':', '/', '/']
}

/// Whether a URL qualifies for replacement: it starts with `http://` or
/// `https://`.
pub open spec fn scheme_ok(url: Seq<char>) -> bool {
    (url.len() >= 7 && url.subrange(0, 7) == http_prefix()) || (url.len() >= 8 && url.subrange(
        0,
        8,
    ) == https_prefix())
}

/// A replaceable Markdown link occurrence.
pub ghost struct SpecMdLink {
    pub start: int,
    pub end: int,
    pub text: Seq<char>,
    pub url: Seq<char>,
}

/// The replaceable Markdown links of `s` from position `i` on, in document
/// order, as the scan produces them.
pub open spec fn spec_find_md_links(s: Seq<char>, i: int) -> Seq<SpecMdLink>
    decreases s.len() - i,
    via spec_find_md_links_decreases
{
    if i < 0 || i >= s.len() {
        Seq::empty()
    } else {
        match md_match_at(s, i) {
            Some(ef) => {
                let text = s.subrange(i + 1, ef.0);
                let url = s.subrange(ef.0 + 2, ef.1);
                let rest = spec_find_md_links(s, ef.1 + 1);
                if scheme_ok(url) {
                    seq![SpecMdLink { start: i, end: ef.1 + 1, text, url }] + rest
                } else {
                    rest
                }
            },
            None => spec_find_md_links(s, i + 1),
        }
    }
}

#[via_fn]
proof fn spec_find_md_links_decreases(s: Seq<char>, i: int) {
    if 0 <= i < s.len() {
        lemma_md_match_bounds(s, i);
    }
}

/// Well-formedness of a scanned link stream: every link lies within
/// `[i, s.len())`, is non-empty, and successive links never overlap.
pub open spec fn md_links_wf(s: Seq<char>, i: int, ls: Seq<SpecMdLink>) -> bool {
    &&& forall|k: int| 0 <= k < ls.len() ==> i <= (#[trigger] ls[k]).start < ls[k].end <= s.len()
    &&& forall|k: int| 0 <= k && k + 1 < ls.len() ==> (#[trigger] ls[k]).end <= ls[k + 1].start
}

/// The scanned link stream is well formed: links are in order, within
/// bounds, and non-overlapping.
pub proof fn lemma_md_links_wf(s: Seq<char>, i: int)
    requires
        0 <= i <= s.len(),
    ensures
        md_links_wf(s, i, spec_find_md_links(s, i)),
    decreases s.len() - i,
{
    if i < s.len() {
        let ls = spec_find_md_links(s, i);
        lemma_md_match_bounds(s, i);
        match md_match_at(s, i) {
            Some(ef) => {
                lemma_md_links_wf(s, ef.1 + 1);
                let rest = spec_find_md_links(s, ef.1 + 1);
                if scheme_ok(s.subrange(ef.0 + 2, ef.1)) {
                    assert forall|k: int| 0 <= k < ls.len() implies i <= (#[trigger] ls[k]).start
                        < ls[k].end <= s.len() by {
                        if k > 0 {
                            assert(ls[k] == rest[k - 1]);
                        }
                    }
                    assert forall|k: int| 0 <= k && k + 1 < ls.len() implies (
                    #[trigger] ls[k]).end <= ls[k + 1].start by {
                        assert(ls[k + 1] == rest[k]);
                        if k > 0 {
                            assert(ls[k] == rest[k - 1]);
                        }
                    }
                }
            },
            None => {
                lemma_md_links_wf(s, i + 1);
            },
        }
    }
}

/// A link whose URL scheme is not `http://` or `https://` never enters the
/// replaceable stream, though its span is still consumed by the scan.
pub proof fn lemma_non_http_link_dropped(s: Seq<char>, i: int)
    requires
        0 <= i < s.len(),
        md_match_at(s, i) matches Some(ef),
        !scheme_ok(s.subrange(md_match_at(s, i)->Some_0.0 + 2, md_match_at(s, i)->Some_0.1)),
    ensures
        spec_find_md_links(s, i) == spec_find_md_links(s, md_match_at(s, i)->Some_0.1 + 1),
{
}

/// A located replaceable Markdown link.
#[derive(Debug, Clone, PartialEq)]
pub struct MDLink {
    pub start_index: usize,
    pub end_index: usize,
    pub text: String,
    pub url: String,
}

impl View for MDLink {
    type V = SpecMdLink;

    open spec fn view(&self) -> SpecMdLink {
        SpecMdLink {
            start: self.start_index as int,
            end: self.end_index as int,
            text: self.text@,
            url: self.url@,
        }
    }
}

/// The views of a vector of scanned links.
pub open spec fn md_views_of(ls: Seq<MDLink>) -> Seq<SpecMdLink> {
    ls.map_values(|l: MDLink| l@)
}

fn close_chain_at(v: &Vec<char>, j0: usize, delim: char) -> (r: Vec<usize>)
    requires
        j0 <= v@.len(),
    ensures
        r@.map_values(|x: usize| x as int) == close_chain(v@, j0 as int, delim),
{
    let mut out: Vec<usize> = Vec::new();
    let mut j = j0;
    proof {
        assert(out@.map_values(|x: usize| x as int) =~= Seq::<int>::empty());
    }
    while j < v.len()
        invariant_except_break
            close_chain(v@, j0 as int, delim) == out@.map_values(|x: usize| x as int)
                + close_chain(v@, j as int, delim),
        invariant
            j0 <= j <= v@.len(),
        ensures
            close_chain(v@, j0 as int, delim) == out@.map_values(|x: usize| x as int),
        decreases v@.len() - j,
    {
        if v[j] == delim {
            let escaped = j > 0 && v[j - 1] == '\\';
            let ghost prev = out@.map_values(|x: usize| x as int);
            out.push(j);
            proof {
                assert(out@.map_values(|x: usize| x as int) =~= prev + seq![j as int]);
            }
            if !escaped {
                break;
            }
        }
        j = j + 1;
    }
    out
}

#[verifier::loop_isolation(false)]
fn try_md_at(v: &Vec<char>, i: usize) -> (r: Option<(usize, usize)>)
    requires
        i < v@.len(),
    ensures
        match r {
            Some(ef) => md_match_at(v@, i as int) == Some((ef.0 as int, ef.1 as int)) && i < ef.0
                && ef.0 + 2 <= ef.1 && ef.1 < v@.len(),
            None => md_match_at(v@, i as int) is None,
        },
{
    proof {
        lemma_md_match_bounds(v@, i as int);
    }
    let n = v.len();
    if v[i] != '[' {
        return None;
    }
    let elist = close_chain_at(v, i + 1, ']');
    let ghost spec_elist = close_chain(v@, i + 1 as int, ']');
    proof {
        lemma_close_chain_bounds(v@, i + 1 as int, ']');
    }
    let mut k = elist.len();
    proof {
        assert(spec_elist.take(k as int) =~= spec_elist);
    }
    while k > 0
        invariant
            k <= elist.len(),
            md_try(v@, spec_elist) == md_try(v@, spec_elist.take(k as int)),
        decreases k,
    {
        proof {
            assert(spec_elist.take(k as int).drop_last() =~= spec_elist.take(k - 1 as int));
            assert(spec_elist.take(k as int).last() == elist@[k - 1 as int] as int);
        }
        let e = elist[k - 1];
        proof {
            assert(e < v@.len());
        }
        if e + 1 < n && v[e + 1] == '(' {
            let fl = close_chain_at(v, e + 2, ')');
            proof {
                lemma_close_chain_bounds(v@, e + 2 as int, ')');
            }
            if fl.len() > 0 {
                let f = fl[fl.len() - 1];
                proof {
                    let ghost spec_fl = close_chain(v@, e + 2 as int, ')');
                    assert(spec_fl.last() == fl@[fl@.len() - 1] as int);
                }
                return Some((e, f));
            }
        }
        k = k - 1;
    }
    proof {
        assert(spec_elist.take(0) =~= Seq::<int>::empty());
    }
    None
}

fn scheme_ok_at(v: &Vec<char>, a: usize, b: usize) -> (r: bool)
    requires
        a <= b <= v@.len(),
    ensures
        r == scheme_ok(v@.subrange(a as int, b as int)),
{
    let len = b - a;
    let http = len >= 7 && v[a] == 'h' && v[a + 1] == 't' && v[a + 2] == 't' && v[a + 3] == 'p'
        && v[a + 4] == ':' && v[a + 5] == '/' && v[a + 6] == '/';
    let https = len >= 8 && v[a] == 'h' && v[a + 1] == 't' && v[a + 2] == 't' && v[a + 3] == 'p'
        && v[a + 4] == 's' && v[a + 5] == ':' && v[a + 6] == '/' && v[a + 7] == '/';
    proof {
        let sub = v@.subrange(a as int, b as int);
        if http {
            assert(sub.subrange(0, 7) =~= http_prefix());
        }
        if https {
            assert(sub.subrange(0, 8) =~= https_prefix());
        }
        if !http && !https {
            if sub.len() >= 7 && sub.subrange(0, 7) == http_prefix() {
                assert forall|k: int| 0 <= k < 7 implies sub[k] == http_prefix()[k] by {
                    assert(sub.subrange(0, 7)[k] == sub[k]);
                }
                assert(false);
            }
            if sub.len() >= 8 && sub.subrange(0, 8) == https_prefix() {
                assert forall|k: int| 0 <= k < 8 implies sub[k] == https_prefix()[k] by {
                    assert(sub.subrange(0, 8)[k] == sub[k]);
                }
                assert(false);
            }
        }
    }
    http || https
}

/// Scan a document for replaceable Markdown links, in document order.  Links
/// whose URL does not use an `http://` or `https://` scheme are not
/// reported, but their span is still consumed by the scan.
#[verifier::loop_isolation(false)]
pub fn find_md_links(contents: &str) -> (r: Vec<MDLink>)
    ensures
        md_views_of(r@) == spec_find_md_links(contents@, 0),
        md_links_wf(contents@, 0, md_views_of(r@)),
        forall|k: int|
            0 <= k && k + 1 < r@.len() ==> (#[trigger] r@[k]).end_index <= r@[k + 1].start_index,
{
    let v = chars_of(contents);
    let n = v.len();
    let mut out: Vec<MDLink> = Vec::new();
    let mut i: usize = 0;
    proof {
        assert(md_views_of(out@) =~= Seq::<SpecMdLink>::empty());
    }
    while i < n
        invariant
            i <= n,
            spec_find_md_links(contents@, 0) == md_views_of(out@) + spec_find_md_links(
                contents@,
                i as int,
            ),
        decreases n - i,
    {
        match try_md_at(&v, i) {
            Some((e, f)) => {
                if scheme_ok_at(&v, e + 2, f) {
                    let text = contents.substring_char(i + 1, e).to_owned();
                    let url = contents.substring_char(e + 2, f).to_owned();
                    let link = MDLink {
                        start_index: i,
                        end_index: f + 1,
                        text,
                        url,
                    };
                    let ghost prev = md_views_of(out@);
                    out.push(link);
                    proof {
                        assert(md_views_of(out@) =~= prev + seq![link@]);
                        assert(spec_find_md_links(contents@, i as int) == seq![link@]
                            + spec_find_md_links(contents@, f + 1 as int));
                        assert(md_views_of(out@) + spec_find_md_links(contents@, f + 1 as int)
                            =~= prev + spec_find_md_links(contents@, i as int));
                    }
                }
                i = f + 1;
            },
            None => {
                i = i + 1;
            },
        }
    }
    proof {
        assert(md_views_of(out@) + spec_find_md_links(contents@, i as int) =~= md_views_of(out@));
        lemma_md_links_wf(contents@, 0);
        assert forall|k: int|
            0 <= k && k + 1 < out@.len() implies (#[trigger] out@[k]).end_index <= out@[k
            + 1].start_index by {
            assert(md_views_of(out@)[k] == out@[k]@);
            assert(md_views_of(out@)[k + 1] == out@[k + 1]@);
        }
    }
    out
}

} // verus!
