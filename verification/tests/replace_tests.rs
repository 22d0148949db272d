use aipr::{
    replace_all, replace_all_aipr_links, replace_all_md_links, AIPRHeaderSettings, AIPRLink,
    AIPRLinkType, MDLink,
};

#[test]
fn test_no_markers_output_equals_input() {
    let s = "Some random text without link...";
    assert_eq!(replace_all(s, 10).unwrap(), s);
    assert_eq!(replace_all("", 0).unwrap(), "");
}

#[test]
fn test_default_header_has_issue_link_and_reading_time() {
    let out = replace_all("{{ #aipr_header }}", 201).unwrap();
    assert!(out.contains(
        "https://github.com/VectorInstitute/ai-pocket-reference/issues/new?template=edit-request.yml"
    ));
    assert!(out.contains("<small>Reading time: 1 min</small>"));
    assert!(!out.contains("colab"));
}

#[test]
fn test_reading_time_false_omits_reading_time() {
    let out = replace_all("{{ #aipr_header reading_time=false }}", 100000).unwrap();
    assert!(!out.contains("Reading time"));
    let out = replace_all("{{ #aipr_header reading_time=false }}", 0).unwrap();
    assert!(!out.contains("Reading time"));
}

#[test]
fn test_colab_path_embedded_in_base_url() {
    let out = replace_all("{{ #aipr_header colab=foo/bar.ipynb }}", 0).unwrap();
    assert!(out.contains(
        "https://colab.research.google.com/github/VectorInstitute/ai-pocket-reference-code/blob/main/notebooks/foo/bar.ipynb"
    ));
}

#[test]
fn test_escaped_markers_returned_verbatim() {
    let s = "\\{{#aipr_header}}";
    assert_eq!(replace_all(s, 7).unwrap(), s);

    let s = "pre \\[x](https://y.io) post";
    assert_eq!(replace_all(s, 7).unwrap(), s);

    let s = "pre ![x](https://y.io) post";
    assert_eq!(replace_all(s, 7).unwrap(), s);
}

#[test]
fn test_escaped_marker_swallows_line_up_to_last_close() {
    // The escaped form is greedy up to the last `}}` of the line, so the
    // directive inside is part of the escaped span and stays untouched.
    let s = "\\{{#a}} {{ #aipr_header }}";
    assert_eq!(replace_all(s, 7).unwrap(), s);
}

#[test]
fn test_unknown_directive_and_schemes_left_unmodified() {
    let s = "{{#my_author ar.rs}}";
    assert_eq!(replace_all(s, 7).unwrap(), s);

    let s = "see [a](ftp://x.io) and [b](x)";
    assert_eq!(replace_all(s, 7).unwrap(), s);
}

#[test]
fn test_full_example_order_and_content() {
    let input =
        "{{ #aipr_header }} {{ #aipr_header colab=nlp/lora.ipynb }} text [a](https://x.io)";
    let out = replace_all(input, 201).unwrap();

    let r1 = AIPRLink {
        start_index: 0,
        end_index: 18,
        link_type: AIPRLinkType::Header(AIPRHeaderSettings::default()),
        link_text: "{{ #aipr_header }}".to_string(),
    }
    .render(201)
    .unwrap();
    let r2 = AIPRLink {
        start_index: 19,
        end_index: 58,
        link_type: AIPRLinkType::Header(AIPRHeaderSettings::from_param_str("colab=nlp/lora.ipynb")),
        link_text: "{{ #aipr_header colab=nlp/lora.ipynb }}".to_string(),
    }
    .render(201)
    .unwrap();
    let anchor = MDLink {
        start_index: 0,
        end_index: 0,
        text: "a".to_string(),
        url: "https://x.io".to_string(),
    }
    .render()
    .unwrap();

    let expected = format!("{r1} {r2} text {anchor}");
    assert_eq!(out, expected);
}

#[test]
fn test_passes_compose() {
    let input = "{{ #aipr_header reading_time=false,submit_issue=false }}[a](https://x.io)";
    let step1 = replace_all_aipr_links(input, 0).unwrap();
    let step2 = replace_all_md_links(&step1).unwrap();
    assert_eq!(replace_all(input, 0).unwrap(), step2);
    assert!(step2.contains("rel=\"noopener noreferrer\""));
    assert!(!step2.contains("Reading time"));
    assert!(!step2.contains("edit-request.yml"));
}

#[test]
fn test_settings_with_spaces_and_trailing_comma() {
    let out = replace_all("{{ #aipr_header   colab=x.ipynb  , reading_time=false, }}", 42).unwrap();
    assert!(out.contains("blob/main/notebooks/x.ipynb"));
    assert!(!out.contains("Reading time"));
}

#[test]
fn test_adjacent_escaped_and_plain_links() {
    let out = replace_all("![a](https://x.io)[b](https://y.io)", 0).unwrap();
    let anchor_b = MDLink {
        start_index: 0,
        end_index: 0,
        text: "b".to_string(),
        url: "https://y.io".to_string(),
    }
    .render()
    .unwrap();
    assert_eq!(out, format!("![a](https://x.io){anchor_b}"));
}

#[test]
fn test_non_ascii_text_around_markers() {
    let out = replace_all("héllo — [a](https://x.io)", 0).unwrap();
    let anchor = MDLink {
        start_index: 0,
        end_index: 0,
        text: "a".to_string(),
        url: "https://x.io".to_string(),
    }
    .render()
    .unwrap();
    assert_eq!(out, format!("héllo — {anchor}"));
}

#[test]
fn test_escape_limited_to_its_line() {
    // The escaped form runs to the last `}}` of its own line; a directive on
    // the next line is still replaced.
    let out = replace_all("\\{{#x}}\nmore {{ #aipr_header }}", 0).unwrap();
    assert!(out.starts_with("\\{{#x}}\nmore "));
    assert!(out.contains("edit-request.yml"));
}

#[test]
fn test_adjacent_directives_both_replaced() {
    let out = replace_all("{{ #aipr_header }}{{ #aipr_header }}", 201).unwrap();
    let r1 = AIPRLink {
        start_index: 0,
        end_index: 18,
        link_type: AIPRLinkType::Header(AIPRHeaderSettings::default()),
        link_text: "{{ #aipr_header }}".to_string(),
    }
    .render(201)
    .unwrap();
    assert_eq!(out, format!("{r1}{r1}"));
}
