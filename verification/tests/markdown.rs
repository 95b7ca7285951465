use devhub::markdown::{
    fence_marker, html_attribute, image_placeholder, language_for_extension, language_for_path,
    markdown_fenced_source, omit_images_in_fragment, omit_markdown_images,
};

#[test]
fn fenced_source_outgrows_backticks_in_content() {
    let fenced = markdown_fenced_source("rust", "```nested```");
    assert!(fenced.starts_with("````rust\n"));
    assert!(fenced.ends_with("\n````"));
}

#[test]
fn markdown_and_html_images_become_offline_placeholders() {
    let source = "![badge](https://example.com/badge.svg)\n<IMG src=\"demo.gif\" alt=\"Demo animation\">\n![logo](assets/logo.png)";
    let omitted = omit_markdown_images(source);

    assert_eq!(
        omitted,
        "[image not loaded: badge]\n[image not loaded: Demo animation]\n[image not loaded: logo]"
    );
}

#[test]
fn linked_image_keeps_its_destination_link() {
    let source = "[![Rust](badge.svg)](https://rust-lang.org)";
    assert_eq!(
        omit_markdown_images(source),
        "[[image not loaded: Rust]](https://rust-lang.org)"
    );
}

#[test]
fn image_syntax_in_code_is_not_rewritten() {
    let source = "`![inline](image.png)`\n```md\n![fenced](image.png)\n```\n";
    assert_eq!(omit_markdown_images(source), source);
}

#[test]
fn fenced_source_uses_three_backticks_at_least() {
    assert_eq!(markdown_fenced_source("", "plain"), "```\nplain\n```");
    assert_eq!(
        markdown_fenced_source("md", "a `b` ``c``"),
        "```md\na `b` ``c``\n```"
    );
    assert_eq!(
        markdown_fenced_source("sh", "x`````y"),
        "``````sh\nx`````y\n``````"
    );
}

#[test]
fn fence_markers_need_three_backticks_or_tildes() {
    assert_eq!(fence_marker("```rust"), Some(('`', 3)));
    assert_eq!(fence_marker("   ~~~~"), Some(('~', 4)));
    assert_eq!(fence_marker("``"), None);
    assert_eq!(fence_marker("text ```"), None);
    assert_eq!(fence_marker(""), None);
}

#[test]
fn placeholders_collapse_white_space_and_drop_brackets() {
    assert_eq!(image_placeholder(None), "[image not loaded]");
    assert_eq!(image_placeholder(Some("   ")), "[image not loaded]");
    assert_eq!(
        image_placeholder(Some("  a  [b]\tc ")),
        "[image not loaded: a b c]"
    );
    assert_eq!(image_placeholder(Some("[]")), "[image not loaded]");
}

#[test]
fn html_attributes_are_read_quoted_or_bare() {
    assert_eq!(
        html_attribute("<img ALT=\"Two words\" src=x>", "alt"),
        Some("Two words".to_string())
    );
    assert_eq!(
        html_attribute("<img alt='single' >", "alt"),
        Some("single".to_string())
    );
    assert_eq!(html_attribute("<img alt = bare>", "alt"), Some("bare".to_string()));
    assert_eq!(html_attribute("<img alt=bare", "alt"), Some("bare".to_string()));
    assert_eq!(html_attribute("<img src=x>", "alt"), None);
    assert_eq!(html_attribute("<img alt x=y>", "alt"), None);
    assert_eq!(html_attribute("<img alt=\"open>", "alt"), None);
    assert_eq!(html_attribute("<img alt=>", "alt"), Some(String::new()));
}

#[test]
fn images_without_alt_text_get_a_bare_placeholder() {
    assert_eq!(
        omit_images_in_fragment("see <img src=\"a.png\"> here"),
        "see [image not loaded] here"
    );
    assert_eq!(omit_images_in_fragment("![](x.png)"), "[image not loaded]");
}

#[test]
fn incomplete_image_syntax_is_kept() {
    assert_eq!(omit_images_in_fragment("![label](no end"), "![label](no end");
    assert_eq!(omit_images_in_fragment("![label] (x)"), "![label] (x)");
    assert_eq!(omit_images_in_fragment("<img no end"), "<img no end");
    assert_eq!(omit_images_in_fragment("a ! b < c"), "a ! b < c");
}

#[test]
fn inline_code_closes_only_with_a_run_of_its_length() {
    assert_eq!(
        omit_images_in_fragment("`a` ![z](w)"),
        "`a` [image not loaded: z]"
    );
    // A run of another length opens inline code of that length instead.
    assert_eq!(
        omit_images_in_fragment("``a ` ![x](y) `` ![z](w)"),
        "``a ` ![x](y) `` ![z](w)"
    );
}

#[test]
fn fenced_blocks_close_only_with_a_long_enough_fence_of_the_same_character() {
    let source = "````\n```\n![a](b)\n~~~~\n````\n![c](d)";
    assert_eq!(
        omit_markdown_images(source),
        "````\n```\n![a](b)\n~~~~\n````\n[image not loaded: c]"
    );
}

#[test]
fn text_without_image_syntax_is_unchanged() {
    let source = "# Title\n\nSome *text* with `code` and [a link](x).\r\nLast line";
    assert_eq!(omit_markdown_images(source), source);
}

#[test]
fn languages_follow_file_extensions() {
    assert_eq!(language_for_path("src/main.rs"), "Rust");
    assert_eq!(language_for_path("web/App.TSX"), "TypeScript");
    assert_eq!(language_for_path("README.markdown"), "Markdown");
    assert_eq!(language_for_path("config.yml"), "YAML");
    assert_eq!(language_for_path("Makefile"), "Text");
    assert_eq!(language_for_path(".gitignore"), "Text");
    assert_eq!(language_for_path("archive.tar.gz"), "Text");
    assert_eq!(language_for_extension("JSON"), "JSON");
    assert_eq!(language_for_extension("htm"), "HTML");
    assert_eq!(language_for_extension("scss"), "CSS");
    assert_eq!(language_for_extension("jsx"), "JavaScript");
    assert_eq!(language_for_extension("py"), "Python");
    assert_eq!(language_for_extension("go"), "Go");
    assert_eq!(language_for_extension("toml"), "TOML");
    assert_eq!(language_for_extension(""), "Text");
}

#[test]
fn languages_come_from_the_file_names_extension() {
    assert_eq!(language_for_path("README.MD"), "Markdown");
    assert_eq!(language_for_path("index.htm"), "HTML");
    assert_eq!(language_for_path(".rs"), "Text");
    assert_eq!(language_for_path("src.rs/notes"), "Text");
    assert_eq!(language_for_path("a/b.d/main.py"), "Python");
}
