//! The span-replacement engine and the two rewrite passes.
//!
//! Each pass walks its ordered, non-overlapping stream of replaceable
//! occurrences with a cursor: text between occurrences is copied verbatim,
//! each occurrence is replaced by its rendering, and the tail after the last
//! occurrence is copied verbatim.  A rendering failure aborts the whole
//! pass.  The directive pass runs first, then the link pass runs over its
//! output.

use crate::chars::{esc_char, is_esc_char};
use crate::render::{render_header_spec, render_md_spec, RenderFailure};
use crate::scan_aipr::{
    find_aipr_links, lemma_headers_wf, spec_find_headers, views_of, SpecAiprLink,
};
use crate::scan_md::{
    find_md_links, lemma_md_links_wf, md_links_wf, md_views_of, spec_find_md_links, SpecMdLink,
};
use vstd::prelude::*;
use vstd::string::*;

verus! {

/// Output of the directive pass over the suffix of `s` that starts at
/// `cursor`, for the given stream of occurrences; `None` when a rendering
/// fails.
pub open spec fn splice_headers(
    s: Seq<char>,
    links: Seq<SpecAiprLink>,
    cursor: int,
    words: nat,
) -> Option<Seq<char>>
    decreases links.len(),
{
    if links.len() == 0 {
        Some(s.subrange(cursor, s.len() as int))
    } else {
        let l = links[0];
        match render_header_spec(l.settings, words) {
            Some(rendered) => match splice_headers(s, links.drop_first(), l.end, words) {
                Some(rest) => Some(s.subrange(cursor, l.start) + rendered + rest),
                None => None,
            },
            None => None,
        }
    }
}

/// Output of the directive pass over a whole document.
pub open spec fn aipr_pass(s: Seq<char>, words: nat) -> Option<Seq<char>> {
    splice_headers(s, spec_find_headers(s, 0), 0, words)
}

/// Output of the link pass over the suffix of `s` that starts at `cursor`:
/// a link directly preceded by `\` or `!` is copied verbatim, any other is
/// replaced by its rendering; `None` when a rendering fails.
pub open spec fn splice_md(s: Seq<char>, links: Seq<SpecMdLink>, cursor: int) -> Option<Seq<char>>
    decreases links.len(),
{
    if links.len() == 0 {
        Some(s.subrange(cursor, s.len() as int))
    } else {
        let l = links[0];
        let piece = if l.start > cursor && is_esc_char(s[l.start - 1]) {
            Some(s.subrange(l.start, l.end))
        } else {
            render_md_spec(l.text, l.url)
        };
        match piece {
            Some(p) => match splice_md(s, links.drop_first(), l.end) {
                Some(rest) => Some(s.subrange(cursor, l.start) + p + rest),
                None => None,
            },
            None => None,
        }
    }
}

/// Output of the link pass over a whole document.
pub open spec fn md_pass(s: Seq<char>) -> Option<Seq<char>> {
    splice_md(s, spec_find_md_links(s, 0), 0)
}

/// Output of the whole rewrite: the directive pass, then the link pass over
/// its output.
pub open spec fn full_transform(s: Seq<char>, words: nat) -> Option<Seq<char>> {
    match aipr_pass(s, words) {
        Some(mid) => md_pass(mid),
        None => None,
    }
}

/// Replace every `aipr_header` directive of `s` with its rendered header
/// block; `num_words` is the document's word count, supplied by the caller.
/// Escaped markers and unknown directive names are copied through verbatim.
#[verifier::loop_isolation(false)]
#[verifier::rlimit(80)]
pub fn replace_all_aipr_links(s: &str, num_words: usize) -> (r: Result<String, RenderFailure>)
    ensures
        match r {
            Ok(out) => aipr_pass(s@, num_words as nat) == Some(out@),
            Err(_) => aipr_pass(s@, num_words as nat) is None,
        },
{
    let links = find_aipr_links(s);
    let ghost sl = views_of(links@);
    proof {
        lemma_headers_wf(s@, 0);
    }
    let n = s.unicode_len();
    let mut out = String::new();
    let mut cursor: usize = 0;
    let mut k: usize = 0;
    proof {
        assert(sl.skip(0) =~= sl);
        match splice_headers(s@, sl, 0, num_words as nat) {
            Some(rest) => {
                assert(Seq::<char>::empty() + rest =~= rest);
            },
            None => {},
        }
    }
    while k < links.len()
        invariant
            k <= links@.len(),
            cursor <= n,
            k < sl.len() ==> cursor <= sl[k as int].start,
            match splice_headers(s@, sl.skip(k as int), cursor as int, num_words as nat) {
                Some(rest) => aipr_pass(s@, num_words as nat) == Some(out@ + rest),
                None => aipr_pass(s@, num_words as nat) is None,
            },
        decreases links@.len() - k,
    {
        proof {
            assert(sl[k as int] == links@[k as int]@);
            assert(sl.skip(k as int)[0] == sl[k as int]);
            assert(sl.skip(k as int).drop_first() =~= sl.skip(k + 1 as int));
        }
        let l = &links[k];
        let piece = s.substring_char(cursor, l.start_index);
        out.append(piece);
        match l.render(num_words) {
            Ok(rendered) => {
                let ghost prev = out@;
                out.append(rendered.as_str());
                proof {
                    match splice_headers(
                        s@,
                        sl.skip(k + 1 as int),
                        sl[k as int].end,
                        num_words as nat,
                    ) {
                        Some(rest) => {
                            assert((prev + rendered@) + rest =~= (prev + (rendered@ + rest)));
                            assert(out@ + rest =~= (prev + rendered@) + rest);
                        },
                        None => {},
                    }
                }
                cursor = l.end_index;
                k = k + 1;
            },
            Err(e) => {
                return Err(e);
            },
        }
    }
    proof {
        assert(sl.skip(k as int) =~= Seq::<SpecAiprLink>::empty());
    }
    let tail = s.substring_char(cursor, n);
    out.append(tail);
    Ok(out)
}

/// Replace every Markdown link of `s` whose URL uses an `http://` or
/// `https://` scheme with its rendered anchor.  A link directly preceded by
/// `\` or `!` is copied through verbatim; links with other schemes fall
/// through as ordinary text.
#[verifier::loop_isolation(false)]
#[verifier::rlimit(80)]
pub fn replace_all_md_links(s: &str) -> (r: Result<String, RenderFailure>)
    ensures
        match r {
            Ok(out) => md_pass(s@) == Some(out@),
            Err(_) => md_pass(s@) is None,
        },
{
    let links = find_md_links(s);
    let ghost sl = md_views_of(links@);
    proof {
        lemma_md_links_wf(s@, 0);
    }
    let n = s.unicode_len();
    let mut out = String::new();
    let mut cursor: usize = 0;
    let mut k: usize = 0;
    proof {
        assert(sl.skip(0) =~= sl);
        match splice_md(s@, sl, 0) {
            Some(rest) => {
                assert(Seq::<char>::empty() + rest =~= rest);
            },
            None => {},
        }
    }
    while k < links.len()
        invariant
            k <= links@.len(),
            cursor <= n,
            k < sl.len() ==> cursor <= sl[k as int].start,
            match splice_md(s@, sl.skip(k as int), cursor as int) {
                Some(rest) => md_pass(s@) == Some(out@ + rest),
                None => md_pass(s@) is None,
            },
        decreases links@.len() - k,
    {
        proof {
            assert(sl[k as int] == links@[k as int]@);
            assert(sl.skip(k as int)[0] == sl[k as int]);
            assert(sl.skip(k as int).drop_first() =~= sl.skip(k + 1 as int));
        }
        let l = &links[k];
        let piece = s.substring_char(cursor, l.start_index);
        out.append(piece);
        let escaped = cursor < l.start_index && esc_char(s.get_char(l.start_index - 1));
        if escaped {
            let ghost prev = out@;
            let verbatim = s.substring_char(l.start_index, l.end_index);
            out.append(verbatim);
            proof {
                match splice_md(s@, sl.skip(k + 1 as int), sl[k as int].end) {
                    Some(rest) => {
                        assert((prev + verbatim@) + rest =~= (prev + (verbatim@ + rest)));
                        assert(out@ + rest =~= (prev + verbatim@) + rest);
                    },
                    None => {},
                }
            }
            cursor = l.end_index;
            k = k + 1;
        } else {
            match l.render() {
                Ok(rendered) => {
                    let ghost prev = out@;
                    out.append(rendered.as_str());
                    proof {
                        match splice_md(s@, sl.skip(k + 1 as int), sl[k as int].end) {
                            Some(rest) => {
                                assert((prev + rendered@) + rest =~= (prev + (rendered@ + rest)));
                                assert(out@ + rest =~= (prev + rendered@) + rest);
                            },
                            None => {},
                        }
                    }
                    cursor = l.end_index;
                    k = k + 1;
                },
                Err(e) => {
                    return Err(e);
                },
            }
        }
    }
    proof {
        assert(sl.skip(k as int) =~= Seq::<SpecMdLink>::empty());
    }
    let tail = s.substring_char(cursor, n);
    out.append(tail);
    Ok(out)
}

/// Rewrite a whole document: first replace every `aipr_header` directive,
/// then every qualifying Markdown link of the result.  A failure of the
/// template engine aborts the rewrite with no partial output.
pub fn replace_all(s: &str, num_words: usize) -> (r: Result<String, RenderFailure>)
    ensures
        match r {
            Ok(out) => full_transform(s@, num_words as nat) == Some(out@),
            Err(_) => full_transform(s@, num_words as nat) is None,
        },
{
    match replace_all_aipr_links(s, num_words) {
        Ok(mid) => replace_all_md_links(mid.as_str()),
        Err(e) => Err(e),
    }
}

/// A document in which neither pass finds a replaceable occurrence is
/// returned unchanged.
pub proof fn lemma_no_markers_identity(s: Seq<char>, words: nat)
    requires
        spec_find_headers(s, 0) == Seq::<SpecAiprLink>::empty(),
        spec_find_md_links(s, 0) == Seq::<SpecMdLink>::empty(),
    ensures
        full_transform(s, words) == Some(s),
{
    assert(s.subrange(0, s.len() as int) =~= s);
}

proof fn lemma_no_braces_no_headers(s: Seq<char>, i: int)
    requires
        0 <= i <= s.len(),
        forall|k: int| 0 <= k < s.len() ==> s[k] != '{',
    ensures
        spec_find_headers(s, i) == Seq::<SpecAiprLink>::empty(),
    decreases s.len() - i,
{
    if i < s.len() {
        lemma_no_braces_no_headers(s, i + 1);
    }
}

proof fn lemma_no_brackets_no_links(s: Seq<char>, i: int)
    requires
        0 <= i <= s.len(),
        forall|k: int| 0 <= k < s.len() ==> s[k] != '[',
    ensures
        spec_find_md_links(s, i) == Seq::<SpecMdLink>::empty(),
    decreases s.len() - i,
{
    if i < s.len() {
        lemma_no_brackets_no_links(s, i + 1);
    }
}

/// A document without `{` and `[` holds no marker at all, and the whole
/// rewrite returns it unchanged.
pub proof fn lemma_plain_text_unchanged(s: Seq<char>, words: nat)
    requires
        forall|k: int| 0 <= k < s.len() ==> s[k] != '{' && s[k] != '[',
    ensures
        full_transform(s, words) == Some(s),
{
    lemma_no_braces_no_headers(s, 0);
    lemma_no_brackets_no_links(s, 0);
    lemma_no_markers_identity(s, words);
}

/// Every replaceable link stands strictly apart from its predecessor and
/// directly after an escape character.
pub open spec fn all_links_escaped(s: Seq<char>, ls: Seq<SpecMdLink>, cursor: int) -> bool {
    &&& (ls.len() > 0 ==> ls[0].start > cursor)
    &&& forall|k: int| 0 <= k < ls.len() ==> is_esc_char(s[(#[trigger] ls[k]).start - 1])
    &&& forall|k: int| 0 <= k && k + 1 < ls.len() ==> (#[trigger] ls[k]).end < ls[k + 1].start
}

proof fn lemma_md_wf_chain(s: Seq<char>, i: int, ls: Seq<SpecMdLink>, a: int, b: int)
    requires
        md_links_wf(s, i, ls),
        0 <= a < b < ls.len(),
    ensures
        ls[a].end <= ls[b].start,
    decreases b - a,
{
    if a + 1 < b {
        lemma_md_wf_chain(s, i, ls, a + 1, b);
    }
}

#[verifier::spinoff_prover]
#[verifier::rlimit(100)]
proof fn lemma_escaped_splice_md(s: Seq<char>, ls: Seq<SpecMdLink>, cursor: int)
    requires
        0 <= cursor <= s.len(),
        md_links_wf(s, cursor, ls),
        all_links_escaped(s, ls, cursor),
    ensures
        splice_md(s, ls, cursor) == Some(s.subrange(cursor, s.len() as int)),
    decreases ls.len(),
{
    if ls.len() > 0 {
        let l = ls[0];
        let rest = ls.drop_first();
        assert forall|k: int| 0 <= k < rest.len() implies is_esc_char(
            s[(#[trigger] rest[k]).start - 1],
        ) by {
            assert(rest[k] == ls[k + 1]);
        }
        assert forall|k: int|
            0 <= k && k + 1 < rest.len() implies (#[trigger] rest[k]).end < rest[k + 1].start by {
            assert(rest[k] == ls[k + 1]);
            assert(rest[k + 1] == ls[k + 2]);
        }
        assert forall|k: int|
            0 <= k < rest.len() implies l.end <= (#[trigger] rest[k]).start < rest[k].end
                <= s.len() by {
            assert(rest[k] == ls[k + 1]);
            lemma_md_wf_chain(s, cursor, ls, 0, k + 1);
        }
        if rest.len() > 0 {
            assert(rest[0] == ls[1]);
        }
        lemma_escaped_splice_md(s, rest, l.end);
        assert(s.subrange(cursor, l.start) + s.subrange(l.start, l.end) + s.subrange(
            l.end,
            s.len() as int,
        ) =~= s.subrange(cursor, s.len() as int));
    }
}

/// Escaped links are copied through: when every replaceable link of a
/// document stands directly after `\` or `!`, the link pass returns the
/// document unchanged.
pub proof fn lemma_escaped_links_identity(s: Seq<char>)
    requires
        all_links_escaped(s, spec_find_md_links(s, 0), 0),
    ensures
        md_pass(s) == Some(s),
{
    lemma_md_links_wf(s, 0);
    lemma_escaped_splice_md(s, spec_find_md_links(s, 0), 0);
    assert(s.subrange(0, s.len() as int) =~= s);
}

} // verus!
