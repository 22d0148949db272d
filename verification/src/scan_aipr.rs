//! Scanner for directive markers.
//!
//! A directive marker is `{{`, optional whitespace, `#`, an identifier of
//! ASCII letters, digits and underscores, at least one whitespace character,
//! an optional parameter blob free of `}`, and `}}`.  An escaped marker is a
//! backslash immediately followed by `{{#`, then any characters of the same
//! line up to the last `}}` on that line.  The scan walks the document left
//! to right: at each position it first tries the escaped form, then the
//! directive form, and otherwise advances one character; a match is consumed
//! whole, so matches never overlap.  Only markers whose identifier is
//! `aipr_header` enter the replaceable stream; escaped markers and unknown
//! identifiers fall through as ordinary text.

use crate::chars::{
    chars_of, find_from, find_from_at, ident_end, ident_end_at, is_space, lemma_find_from_bounds,
    lemma_ws_end_bounds, space_char, ws_end, ws_end_at,
};
use crate::settings::{settings_of, trim_str, AIPRHeaderSettings, SpecSettings};
use vstd::prelude::*;
use vstd::string::*;

verus! {

/// The one directive identifier this library recognizes.
pub open spec fn header_name() -> Seq<char> {
    seq!['a', 'i', 'p', 'r', '_', 'h', 'e', 'a', 'd', 'e', 'r']
}

/// The largest `j` with `from <= j <= k` such that `}}` stands at `j`;
/// `None` if there is none.
pub open spec fn last_close_at_most(s: Seq<char>, from: int, k: int) -> Option<int>
    decreases k - from + 1,
{
    if k < from || from < 0 {
        None
    } else if s[k] == '}' && s[k + 1] == '}' {
        Some(k)
    } else {
        last_close_at_most(s, from, k - 1)
    }
}

/// End offset of an escaped marker starting at `i`: after `\{{#` the match
/// runs to the last `}}` of the current line, greedily.
pub open spec fn escaped_match_end(s: Seq<char>, i: int) -> Option<int> {
    if 0 <= i && i + 4 <= s.len() && s[i] == '\\' && s[i + 1] == '{' && s[i + 2] == '{' && s[i + 3]
        == '#' {
        let limit = find_from(s, i + 4, '\n');
        match last_close_at_most(s, i + 4, limit - 2) {
            Some(j) => Some(j + 2),
            None => None,
        }
    } else {
        None
    }
}

/// A directive marker occurrence: its end offset, its identifier, and its
/// parameter blob when one is present.
pub ghost struct SpecDirective {
    pub end: int,
    pub name: Seq<char>,
    pub params: Option<Seq<char>>,
}

/// The directive marker starting at `i`, if the grammar matches there.
pub open spec fn directive_match_at(s: Seq<char>, i: int) -> Option<SpecDirective> {
    if 0 <= i && i + 2 <= s.len() && s[i] == '{' && s[i + 1] == '{' {
        let p = ws_end(s, i + 2);
        if p < s.len() && s[p] == '#' {
            let q = ident_end(s, p + 1);
            if q > p + 1 && q < s.len() && is_space(s[q]) {
                let a = ws_end(s, q);
                let b = find_from(s, a, '}');
                if b + 1 < s.len() && s[b] == '}' && s[b + 1] == '}' {
                    Some(
                        SpecDirective {
                            end: b + 2,
                            name: s.subrange(p + 1, q),
                            params: if a < b {
                                Some(s.subrange(a, b))
                            } else {
                                None
                            },
                        },
                    )
                } else {
                    None
                }
            } else {
                None
            }
        } else {
            None
        }
    } else {
        None
    }
}

/// A replaceable `aipr_header` occurrence.
pub ghost struct SpecAiprLink {
    pub start: int,
    pub end: int,
    pub text: Seq<char>,
    pub settings: SpecSettings,
}

proof fn lemma_last_close_bounds(s: Seq<char>, from: int, k: int)
    ensures
        last_close_at_most(s, from, k) matches Some(j) ==> from <= j <= k,
    decreases k - from + 1,
{
    if k >= from && from >= 0 && !(s[k] == '}' && s[k + 1] == '}') {
        lemma_last_close_bounds(s, from, k - 1);
    }
}

pub proof fn lemma_escaped_match_bounds(s: Seq<char>, i: int)
    requires
        0 <= i <= s.len(),
    ensures
        escaped_match_end(s, i) matches Some(e) ==> i + 6 <= e <= s.len(),
{
    if escaped_match_end(s, i) is Some {
        let limit = find_from(s, i + 4, '\n');
        lemma_find_from_bounds(s, i + 4, '\n');
        lemma_last_close_bounds(s, i + 4, limit - 2);
    }
}

pub proof fn lemma_directive_match_bounds(s: Seq<char>, i: int)
    requires
        0 <= i <= s.len(),
    ensures
        directive_match_at(s, i) matches Some(d) ==> i + 7 <= d.end <= s.len(),
{
    if directive_match_at(s, i) is Some {
        let p = ws_end(s, i + 2);
        lemma_ws_end_bounds(s, i + 2);
        let q = ident_end(s, p + 1);
        let a = ws_end(s, q);
        lemma_ws_end_bounds(s, q);
        let b = find_from(s, a, '}');
        lemma_find_from_bounds(s, a, '}');
    }
}

/// The replaceable `aipr_header` occurrences of `s` from position `i` on, in
/// document order, as the scan produces them.
pub open spec fn spec_find_headers(s: Seq<char>, i: int) -> Seq<SpecAiprLink>
    decreases s.len() - i,
    via spec_find_headers_decreases
{
    if i < 0 || i >= s.len() {
        Seq::empty()
    } else {
        match escaped_match_end(s, i) {
            Some(e) => spec_find_headers(s, e),
            None => match directive_match_at(s, i) {
                Some(d) => {
                    let rest = spec_find_headers(s, d.end);
                    if d.name == header_name() {
                        seq![
                            SpecAiprLink {
                                start: i,
                                end: d.end,
                                text: s.subrange(i, d.end),
                                settings: settings_of(d.params),
                            },
                        ] + rest
                    } else {
                        rest
                    }
                },
                None => spec_find_headers(s, i + 1),
            },
        }
    }
}

#[via_fn]
proof fn spec_find_headers_decreases(s: Seq<char>, i: int) {
    if 0 <= i < s.len() {
        lemma_escaped_match_bounds(s, i);
        lemma_directive_match_bounds(s, i);
    }
}

/// Well-formedness of a scanned stream: every occurrence lies within
/// `[i, s.len())`, is non-empty, carries its own source text, and successive
/// occurrences never overlap.
pub open spec fn headers_wf(s: Seq<char>, i: int, ls: Seq<SpecAiprLink>) -> bool {
    &&& forall|k: int|
        0 <= k < ls.len() ==> i <= (#[trigger] ls[k]).start < ls[k].end <= s.len()
    &&& forall|k: int| 0 <= k < ls.len() ==> (#[trigger] ls[k]).text == s.subrange(
        ls[k].start,
        ls[k].end,
    )
    &&& forall|k: int| 0 <= k && k + 1 < ls.len() ==> (#[trigger] ls[k]).end <= ls[k + 1].start
}

/// The scanned stream is well formed: occurrences are in order, within
/// bounds, and non-overlapping.
#[verifier::rlimit(60)]
pub proof fn lemma_headers_wf(s: Seq<char>, i: int)
    requires
        0 <= i <= s.len(),
    ensures
        headers_wf(s, i, spec_find_headers(s, i)),
    decreases s.len() - i,
{
    if i < s.len() {
        let ls = spec_find_headers(s, i);
        lemma_escaped_match_bounds(s, i);
        lemma_directive_match_bounds(s, i);
        match escaped_match_end(s, i) {
            Some(e) => {
                lemma_headers_wf(s, e);
            },
            None => match directive_match_at(s, i) {
                Some(d) => {
                    lemma_headers_wf(s, d.end);
                    let rest = spec_find_headers(s, d.end);
                    if d.name == header_name() {
                        assert forall|k: int| 0 <= k < ls.len() implies i <= (#[trigger] ls[k]).start
                            < ls[k].end <= s.len() by {
                            if k > 0 {
                                assert(ls[k] == rest[k - 1]);
                            }
                        }
                        assert forall|k: int| 0 <= k < ls.len() implies (#[trigger] ls[k]).text
                            == s.subrange(ls[k].start, ls[k].end) by {
                            if k > 0 {
                                assert(ls[k] == rest[k - 1]);
                            }
                        }
                        assert forall|k: int| 0 <= k && k + 1 < ls.len() implies (
                        #[trigger] ls[k]).end <= ls[k + 1].start by {
                            assert(ls[k + 1] == rest[k]);
                            if k > 0 {
                                assert(ls[k] == rest[k - 1]);
                            }
                        }
                    }
                },
                None => {
                    lemma_headers_wf(s, i + 1);
                },
            },
        }
    }
}

/// An escaped marker never enters the replaceable stream: the scan resumes
/// after it, and its span is left to be copied through as ordinary text.
pub proof fn lemma_escaped_directive_dropped(s: Seq<char>, i: int)
    requires
        0 <= i < s.len(),
        escaped_match_end(s, i) matches Some(e),
    ensures
        spec_find_headers(s, i) == spec_find_headers(s, escaped_match_end(s, i)->Some_0),
{
}

/// A directive with an unknown identifier never enters the replaceable
/// stream: the scan resumes after it, and its span is left to be copied
/// through as ordinary text.
pub proof fn lemma_unknown_directive_dropped(s: Seq<char>, i: int)
    requires
        0 <= i < s.len(),
        escaped_match_end(s, i) is None,
        directive_match_at(s, i) matches Some(d),
        directive_match_at(s, i)->Some_0.name != header_name(),
    ensures
        spec_find_headers(s, i) == spec_find_headers(s, directive_match_at(s, i)->Some_0.end),
{
}

/// The kind of a replaceable directive occurrence, with its settings.
#[derive(Debug, Clone, PartialEq)]
pub enum AIPRLinkType {
    Header(AIPRHeaderSettings),
}

/// A located replaceable directive occurrence.
#[derive(Debug, Clone, PartialEq)]
pub struct AIPRLink {
    pub start_index: usize,
    pub end_index: usize,
    pub link_type: AIPRLinkType,
    pub link_text: String,
}

impl View for AIPRLink {
    type V = SpecAiprLink;

    open spec fn view(&self) -> SpecAiprLink {
        SpecAiprLink {
            start: self.start_index as int,
            end: self.end_index as int,
            text: self.link_text@,
            settings: match self.link_type {
                AIPRLinkType::Header(st) => st@,
            },
        }
    }
}

#[verifier::loop_isolation(false)]
fn try_escaped(v: &Vec<char>, i: usize) -> (r: Option<usize>)
    requires
        i < v@.len(),
    ensures
        match r {
            Some(e) => escaped_match_end(v@, i as int) == Some(e as int) && i < e <= v@.len(),
            None => escaped_match_end(v@, i as int) is None,
        },
{
    proof {
        lemma_escaped_match_bounds(v@, i as int);
    }
    if v.len() >= 4 && i <= v.len() - 4 && v[i] == '\\' && v[i + 1] == '{' && v[i + 2] == '{' && v[i
        + 3] == '#' {
        let limit = find_from_at(v, i + 4, '\n');
        if limit - i < 6 {
            return None;
        }
        let mut k = limit - 2;
        loop
            invariant
                i + 4 <= k <= limit - 2,
                last_close_at_most(v@, i + 4 as int, limit - 2 as int) == last_close_at_most(
                    v@,
                    i + 4 as int,
                    k as int,
                ),
            decreases k,
        {
            if v[k] == '}' && v[k + 1] == '}' {
                return Some(k + 2);
            }
            if k == i + 4 {
                proof {
                    assert(last_close_at_most(v@, i + 4 as int, i + 3 as int) is None);
                }
                return None;
            }
            k = k - 1;
        }
    } else {
        None
    }
}

struct DirectiveHit {
    end: usize,
    name_start: usize,
    name_end: usize,
    params_start: usize,
    params_end: usize,
    has_params: bool,
}

#[verifier::loop_isolation(false)]
fn try_directive(v: &Vec<char>, i: usize) -> (r: Option<DirectiveHit>)
    requires
        i < v@.len(),
    ensures
        match r {
            Some(h) => {
                &&& i < h.end <= v@.len()
                &&& h.name_start <= h.name_end <= v@.len()
                &&& h.params_start <= h.params_end <= v@.len()
                &&& directive_match_at(v@, i as int) == Some(
                    SpecDirective {
                        end: h.end as int,
                        name: v@.subrange(h.name_start as int, h.name_end as int),
                        params: if h.has_params {
                            Some(v@.subrange(h.params_start as int, h.params_end as int))
                        } else {
                            None
                        },
                    },
                )
            },
            None => directive_match_at(v@, i as int) is None,
        },
{
    proof {
        lemma_directive_match_bounds(v@, i as int);
    }
    if !(v.len() >= 2 && i <= v.len() - 2 && v[i] == '{' && v[i + 1] == '{') {
        return None;
    }
    let p = ws_end_at(v, i + 2);
    if !(p < v.len() && v[p] == '#') {
        return None;
    }
    let q = ident_end_at(v, p + 1);
    if !(q > p + 1 && q < v.len() && space_char(v[q])) {
        return None;
    }
    let a = ws_end_at(v, q);
    let b = find_from_at(v, a, '}');
    if !(v.len() - b >= 2 && v[b] == '}' && v[b + 1] == '}') {
        return None;
    }
    Some(
        DirectiveHit {
            end: b + 2,
            name_start: p + 1,
            name_end: q,
            params_start: a,
            params_end: b,
            has_params: a < b,
        },
    )
}

fn is_header_name(v: &Vec<char>, a: usize, b: usize) -> (r: bool)
    requires
        a <= b <= v@.len(),
    ensures
        r == (v@.subrange(a as int, b as int) == header_name()),
{
    if b - a != 11 {
        proof {
            assert(v@.subrange(a as int, b as int).len() != header_name().len());
        }
        return false;
    }
    let r = v[a] == 'a' && v[a + 1] == 'i' && v[a + 2] == 'p' && v[a + 3] == 'r' && v[a + 4] == '_'
        && v[a + 5] == 'h' && v[a + 6] == 'e' && v[a + 7] == 'a' && v[a + 8] == 'd' && v[a + 9]
        == 'e' && v[a + 10] == 'r';
    proof {
        let sub = v@.subrange(a as int, b as int);
        if r {
            assert(sub =~= header_name());
        } else {
            if sub == header_name() {
                assert(v@[a as int] == sub[0]);
                assert(v@[a + 1 as int] == sub[1]);
                assert(v@[a + 2 as int] == sub[2]);
                assert(v@[a + 3 as int] == sub[3]);
                assert(v@[a + 4 as int] == sub[4]);
                assert(v@[a + 5 as int] == sub[5]);
                assert(v@[a + 6 as int] == sub[6]);
                assert(v@[a + 7 as int] == sub[7]);
                assert(v@[a + 8 as int] == sub[8]);
                assert(v@[a + 9 as int] == sub[9]);
                assert(v@[a + 10 as int] == sub[10]);
                assert(false);
            }
        }
    }
    r
}

/// The views of a vector of scanned occurrences.
pub open spec fn views_of(ls: Seq<AIPRLink>) -> Seq<SpecAiprLink> {
    ls.map_values(|l: AIPRLink| l@)
}

/// Scan a document for replaceable `aipr_header` directive occurrences, in
/// document order.  Escaped markers and unknown identifiers are not
/// reported: their spans are left to be copied through as ordinary text.
#[verifier::loop_isolation(false)]
pub fn find_aipr_links(contents: &str) -> (r: Vec<AIPRLink>)
    ensures
        views_of(r@) == spec_find_headers(contents@, 0),
        headers_wf(contents@, 0, views_of(r@)),
        forall|k: int|
            0 <= k && k + 1 < r@.len() ==> (#[trigger] r@[k]).end_index <= r@[k
                + 1].start_index,
{
    let v = chars_of(contents);
    let n = v.len();
    let mut out: Vec<AIPRLink> = Vec::new();
    let mut i: usize = 0;
    proof {
        assert(views_of(out@) =~= Seq::<SpecAiprLink>::empty());
    }
    while i < n
        invariant
            i <= n,
            spec_find_headers(contents@, 0) == views_of(out@) + spec_find_headers(
                contents@,
                i as int,
            ),
        decreases n - i,
    {
        match try_escaped(&v, i) {
            Some(e) => {
                i = e;
            },
            None => {
                match try_directive(&v, i) {
                    Some(h) => {
                        let ghost d = directive_match_at(contents@, i as int)->Some_0;
                        if is_header_name(&v, h.name_start, h.name_end) {
                            let settings: AIPRHeaderSettings = if h.has_params {
                                let blob = contents.substring_char(h.params_start, h.params_end);
                                let trimmed = trim_str(blob);
                                AIPRHeaderSettings::from_param_str(trimmed.as_str())
                            } else {
                                AIPRHeaderSettings::default()
                            };
                            proof {
                                assert(settings@ == settings_of(d.params));
                            }
                            let text = contents.substring_char(i, h.end).to_owned();
                            let link = AIPRLink {
                                start_index: i,
                                end_index: h.end,
                                link_type: AIPRLinkType::Header(settings),
                                link_text: text,
                            };
                            let ghost prev = views_of(out@);
                            out.push(link);
                            proof {
                                assert(views_of(out@) =~= prev + seq![link@]);
                                assert(spec_find_headers(contents@, i as int) == seq![link@]
                                    + spec_find_headers(contents@, h.end as int));
                                assert(views_of(out@) + spec_find_headers(contents@, h.end as int)
                                    =~= prev + spec_find_headers(contents@, i as int));
                            }
                            i = h.end;
                        } else {
                            i = h.end;
                        }
                    },
                    None => {
                        i = i + 1;
                    },
                }
            },
        }
    }
    proof {
        assert(views_of(out@) + spec_find_headers(contents@, i as int) =~= views_of(out@));
        lemma_headers_wf(contents@, 0);
        assert forall|k: int|
            0 <= k && k + 1 < out@.len() implies (#[trigger] out@[k]).end_index <= out@[k
            + 1].start_index by {
            assert(views_of(out@)[k] == out@[k]@);
            assert(views_of(out@)[k + 1] == out@[k + 1]@);
        }
    }
    out
}

} // verus!
