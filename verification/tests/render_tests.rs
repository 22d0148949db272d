use aipr::{AIPRHeaderSettings, AIPRLink, AIPRLinkType, MDLink, ReadingTime};

#[test]
fn test_link_render() {
    let link = AIPRLink {
        start_index: 19,
        end_index: 58,
        link_type: AIPRLinkType::Header(AIPRHeaderSettings::from_param_str(
            "colab=nlp/lora.ipynb",
        )),
        link_text: "{{ #aipr_header colab=nlp/lora.ipynb }}".to_string(),
    };
    let num_words = 201;

    let html_string = link.render(num_words).unwrap();
    let expected = "<div style=\"display: flex; justify-content: \
        space-between; align-items: center; margin-bottom: 2em;\">\n  <div>\n    \
        <a target=\"_blank\" href=\"https://github.com/VectorInstitute/\
        ai-pocket-reference/issues/new?template=edit-request.yml\">\n      \
        <img src=\"https://img.shields.io/badge/Suggest_an_Edit-black?logo=\
        github&style=flat\" alt=\"Suggest an Edit\"/>\n    </a>\n    \
        <a target=\"_blank\" href=\"https://colab.research.google.com/github/\
        VectorInstitute/ai-pocket-reference-code/blob/main/notebooks/nlp/lora.ipynb\
        \">\n      <img src=\"https://colab.research.google.com/assets/colab-badge.svg\
        \" alt=\"Open In Colab\"/>\n    </a>\n    <p style=\"margin: 0;\">\
        <small>Reading time: 1 min</small></p>\n  </div>\n</div>\n";

    println!("{:#?}", html_string);

    assert_eq!(html_string, expected);
}

#[test]
fn test_link_render_no_colab() {
    let link = AIPRLink {
        start_index: 19,
        end_index: 58,
        link_type: AIPRLinkType::Header(AIPRHeaderSettings::default()),
        link_text: "{{ #aipr_header }}".to_string(),
    };
    let num_words = 301;

    let html_string = link.render(num_words).unwrap();
    let expected = "<div style=\"display: flex; justify-content: \
        space-between; align-items: center; margin-bottom: 2em;\">\n  <div>\n    \
        <a target=\"_blank\" href=\"https://github.com/VectorInstitute/\
        ai-pocket-reference/issues/new?template=edit-request.yml\">\n      \
        <img src=\"https://img.shields.io/badge/Suggest_an_Edit-black?logo=\
        github&style=flat\" alt=\"Suggest an Edit\"/>\n    </a>\n    \
        <p style=\"margin: 0;\"><small>Reading time: 2 min</small></p>\n  \
        </div>\n</div>\n";

    assert_eq!(html_string, expected);
}

#[test]
fn test_link_render_no_colab_no_reading_time() {
    let link = AIPRLink {
        start_index: 19,
        end_index: 58,
        link_type: AIPRLinkType::Header(AIPRHeaderSettings::from_param_str(
            "reading_time=false",
        )),
        link_text: "{{ #aipr_header reading_time=false }}".to_string(),
    };
    let num_words = 200;

    let html_string = link.render(num_words).unwrap();
    let expected = "<div style=\"display: flex; justify-content: \
        space-between; align-items: center; margin-bottom: 2em;\">\n  <div>\n    \
        <a target=\"_blank\" href=\"https://github.com/VectorInstitute/\
        ai-pocket-reference/issues/new?template=edit-request.yml\">\n      \
        <img src=\"https://img.shields.io/badge/Suggest_an_Edit-black?logo=\
        github&style=flat\" alt=\"Suggest an Edit\"/>\n    </a>\n  \
        </div>\n</div>\n";

    assert_eq!(html_string, expected);
}

#[test]
fn test_md_link_render() {
    let link = MDLink {
        start_index: 19,
        end_index: 58,
        text: "some text".to_string(),
        url: "https://fake.io".to_string(),
    };

    let html_string = link.render().unwrap();
    let expected = "<a href=\"https://fake.io\" target=\"_blank\" \
        rel=\"noopener noreferrer\">some text</a>\n";

    assert_eq!(html_string, expected);
}

#[test]
fn test_reading_time_rounding() {
    assert_eq!(ReadingTime::from_word_count(0).value, "0 min");
    assert_eq!(ReadingTime::from_word_count(99).value, "0 min");
    assert_eq!(ReadingTime::from_word_count(100).value, "1 min");
    assert_eq!(ReadingTime::from_word_count(200).value, "1 min");
    assert_eq!(ReadingTime::from_word_count(300).value, "2 min");
    assert_eq!(ReadingTime::from_word_count(301).value, "2 min");
    assert_eq!(ReadingTime::from_word_count(123456).value, "617 min");
}

#[test]
fn test_preprocessor_name() {
    let pre = aipr::AIPRPreprocessor::new();
    assert_eq!(pre.name(), "ai-pocket-reference");
}
