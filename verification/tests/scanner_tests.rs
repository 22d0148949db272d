use aipr::{
    find_aipr_links, find_md_links, AIPRHeaderSettings, AIPRLink, AIPRLinkType, MDLink,
    _parse_param_str,
};

fn simple_book_content() -> String {
    "{{ #aipr_header }} {{ #aipr_header colab=nlp/lora.ipynb }} Some random [text with](https://fake.io) and more text ..."
        .to_string()
}

#[test]
fn test_find_links_no_author_links() {
    let s = "Some random text without link...";
    assert!(find_aipr_links(s) == vec![]);
    assert!(find_md_links(s) == vec![]);
}

#[test]
fn test_find_links_empty_link() {
    let s = "Some random text with {{#colab  }} and {{}} {{#}}...";
    println!("{:?}", find_aipr_links(s));
    assert!(find_aipr_links(s) == vec![]);
}

#[test]
fn test_find_links_unknown_link_type() {
    let s = "Some random \\[text with\\](test) {{#my_author ar.rs}} and {{#auth}} {{baz}} {{#bar}}...";
    assert!(find_aipr_links(s) == vec![]);
    assert!(find_md_links(s) == vec![]);
}

#[test]
fn test_find_links_simple_author_links() {
    let content = simple_book_content();
    let res = find_aipr_links(&content[..]);
    println!("\nOUTPUT: {res:?}\n");

    assert_eq!(
        res,
        vec![
            AIPRLink {
                start_index: 0,
                end_index: 18,
                link_type: AIPRLinkType::Header(AIPRHeaderSettings::default()),
                link_text: "{{ #aipr_header }}".to_string(),
            },
            AIPRLink {
                start_index: 19,
                end_index: 58,
                link_type: AIPRLinkType::Header(AIPRHeaderSettings::from_param_str(
                    "colab=nlp/lora.ipynb"
                )),
                link_text: "{{ #aipr_header colab=nlp/lora.ipynb }}".to_string(),
            },
        ]
    );
}

#[test]
fn test_aipr_header_settings_all_keys() {
    let setting =
        AIPRHeaderSettings::from_param_str("submit_issue=false,colab=nlp/lora.ipynb,reading_time=false");
    assert_eq!(
        setting,
        AIPRHeaderSettings {
            colab: Some("nlp/lora.ipynb".to_string()),
            submit_issue: false,
            reading_time: false,
        }
    );
}

#[test]
fn test_aipr_header_settings_colab_only() {
    let setting = AIPRHeaderSettings::from_param_str("colab=nlp/lora.ipynb");
    assert_eq!(
        setting,
        AIPRHeaderSettings {
            colab: Some("nlp/lora.ipynb".to_string()),
            ..Default::default()
        }
    );
}

#[test]
fn test_aipr_header_settings_typo_keeps_default() {
    let setting = AIPRHeaderSettings::from_param_str("reading_time=falsee");
    assert_eq!(
        setting,
        AIPRHeaderSettings {
            ..Default::default()
        }
    );
}

#[test]
fn test_finds_md_link() {
    let content = simple_book_content();
    let res = find_md_links(&content[..]);
    println!("\nOUTPUT: {res:?}\n");

    assert_eq!(
        res,
        vec![MDLink {
            start_index: 71,
            end_index: 99,
            text: "text with".to_string(),
            url: "https://fake.io".to_string(),
        }]
    );
}

#[test]
fn test_parse_param_str_keeps_order_and_duplicates() {
    let pairs = _parse_param_str("a=1, b = 2 ,noequals,a=3");
    let expected: Vec<(String, String)> = vec![
        ("a".to_string(), "1".to_string()),
        ("b".to_string(), "2".to_string()),
        ("a".to_string(), "3".to_string()),
    ];
    assert_eq!(pairs, expected);
}

#[test]
fn test_settings_last_occurrence_wins() {
    let setting = AIPRHeaderSettings::from_param_str("reading_time=false,reading_time=true");
    assert!(setting.reading_time);
    let setting = AIPRHeaderSettings::from_param_str("reading_time=true,reading_time=false");
    assert!(!setting.reading_time);
}

#[test]
fn test_match_offsets_are_ordered() {
    let content = simple_book_content();
    let links = find_aipr_links(&content[..]);
    for w in links.windows(2) {
        assert!(w[0].end_index <= w[1].start_index);
    }
    let md = find_md_links("[a](https://x.io) and [b](https://y.io) and [c](https://z.io)");
    assert_eq!(md.len(), 3);
    for w in md.windows(2) {
        assert!(w[0].end_index <= w[1].start_index);
    }
}

#[test]
fn test_directive_requires_space_after_name() {
    // No whitespace after the identifier: not a directive.
    assert!(find_aipr_links("{{#aipr_header}}") == vec![]);
}

#[test]
fn test_escaped_directive_not_found() {
    assert!(find_aipr_links("\\{{#aipr_header}}") == vec![]);
}

#[test]
fn test_md_link_escaped_bracket_inside_text() {
    // `\]` inside the text does not close the link; the first unescaped `]`
    // does.
    let md = find_md_links("[a\\]b](https://x.io)");
    assert_eq!(
        md,
        vec![MDLink {
            start_index: 0,
            end_index: 20,
            text: "a\\]b".to_string(),
            url: "https://x.io".to_string(),
        }]
    );
}

#[test]
fn test_md_link_escaped_bracket_can_still_close() {
    // With no unescaped `]` in sight, the scan falls back to an escaped one
    // as the closer.
    let md = find_md_links("[a\\](https://x.io)");
    assert_eq!(
        md,
        vec![MDLink {
            start_index: 0,
            end_index: 18,
            text: "a\\".to_string(),
            url: "https://x.io".to_string(),
        }]
    );
}

#[test]
fn test_md_link_escaped_paren_inside_url() {
    let md = find_md_links("[a](https://x.io/b\\)c)");
    assert_eq!(
        md,
        vec![MDLink {
            start_index: 0,
            end_index: 22,
            text: "a".to_string(),
            url: "https://x.io/b\\)c".to_string(),
        }]
    );
}

#[test]
fn test_directive_accepts_unicode_whitespace() {
    // U+00A0 (no-break space) counts as whitespace inside the marker.
    let links = find_aipr_links("{{\u{00A0}#aipr_header }}");
    assert_eq!(links.len(), 1);
    assert_eq!(
        links[0].link_type,
        AIPRLinkType::Header(AIPRHeaderSettings::default())
    );
}
