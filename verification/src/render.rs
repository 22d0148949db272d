//! Rendering of replaceable occurrences through the handlebars template
//! engine.
//!
//! The two templates are fixed.  The header template shows an edit link when
//! `submit_issue` is on, a Colab badge when a notebook path is set, and a
//! reading-time line when `reading_time` is on; the link template wraps a
//! Markdown link into an HTML anchor.  Conditional parts are driven by
//! string-valued data: an empty string stands for an absent part.  What the
//! engine returns is named, not written out: rendering is a pure function of
//! the template and the data pairs.

use crate::digits::{dec_seq, dec_string};
use crate::scan_aipr::{AIPRLink, AIPRLinkType};
use crate::scan_md::MDLink;
use crate::settings::{
    default_settings, false_val, lookup, reading_time_key, settings_of, settings_of_params,
    split_pairs, submit_issue_key, SpecSettings,
};
use vstd::arithmetic::div_mod::{lemma_div_multiples_vanish_fancy, lemma_fundamental_div_mod};
use vstd::prelude::*;
use vstd::string::*;

verus! {

/// The header block template.
pub const AIPR_HEADER_TEMPLATE: &'static str = "<div style=\"display: flex; justify-content: space-between; align-items: center; margin-bottom: 2em;\">\n  <div>\n{{#if submit_issue}}    <a target=\"_blank\" href=\"https://github.com/VectorInstitute/ai-pocket-reference/issues/new?template=edit-request.yml\">\n      <img src=\"https://img.shields.io/badge/Suggest_an_Edit-black?logo=github&style=flat\" alt=\"Suggest an Edit\"/>\n    </a>\n{{/if}}{{#if has_colab}}    <a target=\"_blank\" href=\"https://colab.research.google.com/github/VectorInstitute/ai-pocket-reference-code/blob/main/notebooks/{{colab_path}}\">\n      <img src=\"https://colab.research.google.com/assets/colab-badge.svg\" alt=\"Open In Colab\"/>\n    </a>\n{{/if}}{{#if reading_time}}    <p style=\"margin: 0;\"><small>Reading time: {{reading_time}}</small></p>\n{{/if}}  </div>\n</div>\n";

/// The anchor template for Markdown links.
pub const MDLINK_TEMPLATE: &'static str = "<a href=\"{{url}}\" target=\"_blank\" rel=\"noopener noreferrer\">{{text}}</a>\n";

pub open spec fn true_val() -> Seq<char> {
    seq!['t', 'r', 'u', 'e']
}

pub open spec fn has_colab_key() -> Seq<char> {
    seq!['h', 'a', 's', '_', 'c', 'o', 'l', 'a', 'b']
}

pub open spec fn colab_path_key() -> Seq<char> {
    seq!['c', 'o', 'l', 'a', 'b', '_', 'p', 'a', 't', 'h']
}

pub open spec fn text_key() -> Seq<char> {
    seq!['t', 'e', 'x', 't']
}

pub open spec fn url_key() -> Seq<char> {
    seq!['u', 'r', 'l']
}

/// Reading time in minutes for a word count, at 200 words per minute,
/// rounded half away from zero.
pub open spec fn reading_minutes(words: nat) -> nat {
    (words + 100) / 200
}

/// The reading-time label: the minutes in decimal, then `" min"`.
pub open spec fn minutes_label(words: nat) -> Seq<char> {
    dec_seq(reading_minutes(words)) + seq![' ', 'm', 'i', 'n']
}

/// The data pairs handed to the header template for given settings and word
/// count.  An empty value disables the part the key controls.
pub open spec fn header_pairs(st: SpecSettings, words: nat) -> Seq<(Seq<char>, Seq<char>)> {
    seq![
        (
            submit_issue_key(),
            if st.submit_issue {
                true_val()
            } else {
                Seq::empty()
            },
        ),
        (
            has_colab_key(),
            if st.colab is Some {
                true_val()
            } else {
                Seq::empty()
            },
        ),
        (
            colab_path_key(),
            match st.colab {
                Some(p) => p,
                None => Seq::empty(),
            },
        ),
        (
            reading_time_key(),
            if st.reading_time {
                minutes_label(words)
            } else {
                Seq::empty()
            },
        ),
    ]
}

/// The data pairs handed to the anchor template.
pub open spec fn md_pairs(text: Seq<char>, url: Seq<char>) -> Seq<(Seq<char>, Seq<char>)> {
    seq![(text_key(), text), (url_key(), url)]
}

#[verifier::external_type_specification]
#[verifier::external_body]
pub struct ExRenderError(handlebars::RenderError);

/// A template rendering failure; it aborts the whole document rewrite.
#[derive(Debug)]
pub struct RenderFailure {
    pub cause: handlebars::RenderError,
}

/// What the template engine produces for a template string and string-valued
/// data pairs, `None` when rendering fails.
pub uninterp spec fn hb_render_of(template: Seq<char>, data: Seq<(Seq<char>, Seq<char>)>) -> Option<
    Seq<char>,
>;

/// Relies on handlebars::Handlebars::render_template: compiling a template
/// string and rendering it against an object of string values computes a
/// function of the template text and the key/value pairs alone (when a key
/// repeats, the later pair wins), with no other input; it fails only as a
/// function of the same arguments.
#[verifier::external_body]
fn hb_render(template: &str, data: &Vec<(String, String)>) -> (r: Result<
    String,
    handlebars::RenderError,
>)
    ensures
        match r {
            Ok(out) => hb_render_of(template@, data.deep_view()) == Some(out@),
            Err(_) => hb_render_of(template@, data.deep_view()) is None,
        },
{
    let map: std::collections::BTreeMap<&str, &str> = data.iter().map(
        |kv| (kv.0.as_str(), kv.1.as_str()),
    ).collect();
    let engine = handlebars::Handlebars::new();
    engine.render_template(template, &map)
}

/// What the header directive renders to for given settings and word count.
pub open spec fn render_header_spec(st: SpecSettings, words: nat) -> Option<Seq<char>> {
    hb_render_of(AIPR_HEADER_TEMPLATE@, header_pairs(st, words))
}

/// What a Markdown link renders to.
pub open spec fn render_md_spec(text: Seq<char>, url: Seq<char>) -> Option<Seq<char>> {
    hb_render_of(MDLINK_TEMPLATE@, md_pairs(text, url))
}

/// A directive with no parameter blob takes the defaults: the reading time
/// and the edit link are on and no Colab path is set; for any word count,
/// the header data then carries the reading-time label
/// `round(words / 200)` followed by `" min"`.
pub proof fn lemma_no_params_defaults(words: nat)
    ensures
        settings_of(None) == default_settings(),
        settings_of(None).reading_time,
        settings_of(None).submit_issue,
        settings_of(None).colab is None,
        header_pairs(settings_of(None), words)[3].1 == dec_seq((words + 100) / 200) + seq![
            ' ',
            'm',
            'i',
            'n',
        ],
{
}

/// A parameter string that sets `reading_time` to exactly `false` turns the
/// reading-time part off: whatever the word count, the header data carries
/// an empty reading-time value.
pub proof fn lemma_reading_time_false_disables(p: Seq<char>, words: nat)
    requires
        lookup(split_pairs(p), reading_time_key()) == Some(false_val()),
    ensures
        !settings_of_params(p).reading_time,
        header_pairs(settings_of_params(p), words)[3].1 == Seq::<char>::empty(),
{
}

/// When a Colab path is set, the header data marks the Colab part present
/// and carries the path verbatim.
pub proof fn lemma_colab_path_in_data(st: SpecSettings, words: nat)
    requires
        st.colab is Some,
    ensures
        header_pairs(st, words)[1].1 == true_val(),
        header_pairs(st, words)[2].1 == st.colab.unwrap(),
{
}

/// The Colab notebook reference of a header block.
#[derive(Debug, Clone, PartialEq)]
pub struct ColabNB {
    pub path: String,
}

/// The reading-time line of a header block.
#[derive(Debug, Clone, PartialEq)]
pub struct ReadingTime {
    pub value: String,
}

impl ReadingTime {
    /// The reading-time label for a word count: `round(words / 200)`
    /// minutes, rounded half away from zero; a count of zero gives
    /// `"0 min"`.
    pub fn from_word_count(words: usize) -> (r: Self)
        ensures
            r.value@ == minutes_label(words as nat),
    {
        let q = words / 200;
        let rem = words % 200;
        proof {
            lemma_fundamental_div_mod(words as int, 200);
        }
        let minutes = if rem >= 100 {
            q + 1
        } else {
            q
        };
        proof {
            if rem >= 100 {
                assert(words + 100 == 200 * (q + 1 as int) + (rem - 100));
                lemma_div_multiples_vanish_fancy(q + 1 as int, rem - 100 as int, 200);
            } else {
                assert(words + 100 == 200 * (q as int) + (rem + 100));
                lemma_div_multiples_vanish_fancy(q as int, rem + 100 as int, 200);
            }
            assert(minutes == reading_minutes(words as nat));
        }
        let mut label = dec_string(minutes);
        label.append(" min");
        proof {
            reveal_strlit(" min");
            assert(" min"@ =~= seq![' ', 'm', 'i', 'n']);
        }
        ReadingTime { value: label }
    }
}

impl AIPRLink {
    /// Render the header block for this occurrence against the fixed header
    /// template.  A failure of the template engine is reported, not
    /// swallowed.
    pub fn render(&self, num_words: usize) -> (r: Result<String, RenderFailure>)
        ensures
            match r {
                Ok(out) => render_header_spec(self@.settings, num_words as nat) == Some(out@),
                Err(_) => render_header_spec(self@.settings, num_words as nat) is None,
            },
    {
        match &self.link_type {
            AIPRLinkType::Header(settings) => {
                let mut data: Vec<(String, String)> = Vec::new();
                let si = if settings.submit_issue {
                    String::from_str("true")
                } else {
                    String::new()
                };
                data.push((String::from_str("submit_issue"), si));
                match &settings.colab {
                    Some(path) => {
                        let nb = ColabNB { path: path.clone() };
                        data.push((String::from_str("has_colab"), String::from_str("true")));
                        data.push((String::from_str("colab_path"), nb.path));
                    },
                    None => {
                        data.push((String::from_str("has_colab"), String::new()));
                        data.push((String::from_str("colab_path"), String::new()));
                    },
                }
                let rt = if settings.reading_time {
                    ReadingTime::from_word_count(num_words).value
                } else {
                    String::new()
                };
                data.push((String::from_str("reading_time"), rt));
                proof {
                    reveal_strlit("true");
                    reveal_strlit("submit_issue");
                    reveal_strlit("has_colab");
                    reveal_strlit("colab_path");
                    reveal_strlit("reading_time");
                    assert("true"@ =~= true_val());
                    assert("submit_issue"@ =~= submit_issue_key());
                    assert("has_colab"@ =~= has_colab_key());
                    assert("colab_path"@ =~= colab_path_key());
                    assert("reading_time"@ =~= reading_time_key());
                    assert(data.deep_view() =~= header_pairs(settings@, num_words as nat));
                }
                match hb_render(AIPR_HEADER_TEMPLATE, &data) {
                    Ok(out) => Ok(out),
                    Err(e) => Err(RenderFailure { cause: e }),
                }
            },
        }
    }
}

impl MDLink {
    /// Render the HTML anchor for this link against the fixed anchor
    /// template.  A failure of the template engine is reported, not
    /// swallowed.
    pub fn render(&self) -> (r: Result<String, RenderFailure>)
        ensures
            match r {
                Ok(out) => render_md_spec(self.text@, self.url@) == Some(out@),
                Err(_) => render_md_spec(self.text@, self.url@) is None,
            },
    {
        let mut data: Vec<(String, String)> = Vec::new();
        data.push((String::from_str("text"), self.text.clone()));
        data.push((String::from_str("url"), self.url.clone()));
        proof {
            reveal_strlit("text");
            reveal_strlit("url");
            assert("text"@ =~= text_key());
            assert("url"@ =~= url_key());
            assert(data.deep_view() =~= md_pairs(self.text@, self.url@));
        }
        match hb_render(MDLINK_TEMPLATE, &data) {
            Ok(out) => Ok(out),
            Err(e) => Err(RenderFailure { cause: e }),
        }
    }
}

} // verus!
