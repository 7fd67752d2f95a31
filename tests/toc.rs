use llms_fetch_mcp::headings::{extract_headings, Heading};
use llms_fetch_mcp::outline::{find_optimal_level, render_toc};
use llms_fetch_mcp::text::{is_empty_or_invisible, slice_str};
use llms_fetch_mcp::toc::{generate_toc, TocConfig};

fn default_config() -> TocConfig {
    TocConfig::default()
}

fn heading(level: u8, line_number: usize, text: &str) -> Heading {
    Heading {
        level,
        line_number,
        text: text.to_string(),
    }
}

#[test]
fn test_extract_simple_headings() {
    let md = "# H1\n## H2\n### H3";
    let headings = extract_headings(md);
    assert_eq!(headings.len(), 3);
    assert_eq!(headings[0].level, 1);
    assert_eq!(headings[0].line_number, 1);
    assert_eq!(headings[0].text, "# H1");
    assert_eq!(headings[1].level, 2);
    assert_eq!(headings[1].text, "## H2");
}

#[test]
fn test_ignore_fenced_code_blocks() {
    let md = "# Real\n```\n# Fake\n```\n## Also Real";
    let headings = extract_headings(md);
    assert_eq!(headings.len(), 2);
    assert_eq!(headings[0].text, "# Real");
    assert_eq!(headings[1].text, "## Also Real");
}

#[test]
fn test_ignore_indented_code_blocks() {
    let md = "# Real\n\n    # Not a heading (indented)\n\n## Real2";
    let headings = extract_headings(md);
    assert_eq!(headings.len(), 2);
    assert_eq!(headings[0].text, "# Real");
    assert_eq!(headings[1].text, "## Real2");
}

#[test]
fn test_setext_headings() {
    let md = "H1\n==\n\nH2\n--";
    let headings = extract_headings(md);
    assert_eq!(headings.len(), 2);
    assert_eq!(headings[0].level, 1);
    assert_eq!(headings[1].level, 2);
}

#[test]
fn test_empty_links_excluded() {
    let md = "## Writing markup with JSX [](#writing-markup-with-jsx)";
    let headings = extract_headings(md);
    assert_eq!(headings.len(), 1);
    assert_eq!(headings[0].text, "## Writing markup with JSX");

    let md2 = "### Title [](#anchor1) [](#anchor2)";
    let headings2 = extract_headings(md2);
    assert_eq!(headings2.len(), 1);
    assert_eq!(headings2[0].text, "### Title");

    let md3 = "# Simple Heading";
    let headings3 = extract_headings(md3);
    assert_eq!(headings3.len(), 1);
    assert_eq!(headings3[0].text, "# Simple Heading");

    let md4 = "## Title [link](url) more text";
    let headings4 = extract_headings(md4);
    assert_eq!(headings4.len(), 1);
    assert_eq!(headings4[0].text, "## Title [link](url) more text");

    let md5 = "## Check [docs](url) for details [](#anchor)";
    let headings5 = extract_headings(md5);
    assert_eq!(headings5.len(), 1);
    assert_eq!(headings5[0].text, "## Check [docs](url) for details");
}

#[test]
fn test_unicode_headings() {
    let md = "# 你好世界\n## 🎉 Emoji Heading";
    let headings = extract_headings(md);
    assert_eq!(headings.len(), 2);
    assert!(headings[0].text.contains("你好世界"));
    assert!(headings[1].text.contains("🎉"));
}

#[test]
fn test_crlf_line_endings() {
    let md = "# First\r\n## Second\r\n### Third";
    let headings = extract_headings(md);
    assert_eq!(headings.len(), 3);
    assert_eq!(headings[0].line_number, 1);
    assert_eq!(headings[1].line_number, 2);
    assert_eq!(headings[2].line_number, 3);
    assert_eq!(headings[0].text, "# First");
    assert_eq!(headings[1].text, "## Second");
    assert_eq!(headings[2].text, "### Third");
}

#[test]
fn test_mixed_line_endings() {
    let md = "# First\n## Second\r\n### Third\n#### Fourth";
    let headings = extract_headings(md);
    assert_eq!(headings.len(), 4);
    assert_eq!(headings[0].line_number, 1);
    assert_eq!(headings[1].line_number, 2);
    assert_eq!(headings[2].line_number, 3);
    assert_eq!(headings[3].line_number, 4);
}

#[test]
fn test_level_selection() {
    let headings = vec![
        Heading {
            level: 1,
            line_number: 1,
            text: "# ".repeat(50),
        },
        Heading {
            level: 2,
            line_number: 2,
            text: "## ".repeat(50),
        },
        Heading {
            level: 3,
            line_number: 3,
            text: "### ".repeat(50),
        },
    ];

    let result = find_optimal_level(&headings, 400);
    assert!(result.is_some());
    let (level, _toc) = result.unwrap();
    assert!(level >= 1);
}

#[test]
fn test_render_format() {
    let headings = vec![
        Heading {
            level: 1,
            line_number: 5,
            text: "# Title".to_string(),
        },
        Heading {
            level: 2,
            line_number: 123,
            text: "## Subtitle".to_string(),
        },
    ];
    let toc = render_toc(&headings, 2);
    assert!(toc.contains("  5→# Title"));
    assert!(toc.contains("123→## Subtitle"));
}

#[test]
fn test_render_filters_by_level() {
    let headings = vec![
        Heading {
            level: 1,
            line_number: 1,
            text: "# H1".to_string(),
        },
        Heading {
            level: 2,
            line_number: 2,
            text: "## H2".to_string(),
        },
        Heading {
            level: 3,
            line_number: 3,
            text: "### H3".to_string(),
        },
    ];
    let toc = render_toc(&headings, 2);
    assert!(toc.contains("# H1"));
    assert!(toc.contains("## H2"));
    assert!(!toc.contains("### H3"));
}

#[test]
fn test_empty_headings() {
    let headings: Vec<Heading> = vec![];
    let toc = render_toc(&headings, 3);
    assert_eq!(toc, "");
}

#[test]
fn test_generate_toc_skips_small_docs() {
    let small_md = "# Title\nSome content.";
    let toc = generate_toc(small_md, small_md.len(), &default_config());
    assert!(toc.is_none());
}

#[test]
fn test_generate_toc_returns_some_for_large_docs() {
    let large_md = format!("# Title\n{}\n## Section", "content\n".repeat(1000));
    let toc = generate_toc(&large_md, large_md.len(), &default_config());
    assert!(toc.is_some());
}

#[test]
fn test_budget_pressure_returns_none() {
    let headings = vec![
        Heading {
            level: 1,
            line_number: 1,
            text: "# ".to_string() + &"x".repeat(10000),
        },
        Heading {
            level: 1,
            line_number: 2,
            text: "# ".to_string() + &"x".repeat(10000),
        },
    ];

    let level = find_optimal_level(&headings, 10);
    assert!(level.is_none());
}

#[test]
fn test_generate_toc_handles_budget_exceeded() {
    let md = format!(
        "{}# Very Long Heading {}\n{}",
        "content\n".repeat(1000),
        "x".repeat(10000),
        "more\n".repeat(1000)
    );
    let toc = generate_toc(&md, md.len(), &default_config());
    assert!(toc.is_none());
}

#[test]
fn test_simple_toc_behavior() {
    let md = "# Introduction\n\nSome content here.\n\n## Getting Started\n\nMore content.\n\n### Installation\n\nInstall instructions.\n\n### Configuration\n\nConfig details.\n\n## Advanced Usage\n\nAdvanced stuff.";
    let toc = generate_toc(md, md.len(), &default_config());
    assert!(toc.is_none(), "Small documents should not generate ToC");
}

#[test]
fn test_deeply_nested_levels() {
    let md = r#"# Main

## Level 2

### Level 3

#### Level 4

##### Level 5

###### Level 6
"#;
    let headings = extract_headings(md);
    assert_eq!(headings.len(), 6);
    assert_eq!(headings[0].level, 1);
    assert_eq!(headings[1].level, 2);
    assert_eq!(headings[2].level, 3);
    assert_eq!(headings[3].level, 4);
    assert_eq!(headings[4].level, 5);
    assert_eq!(headings[5].level, 6);
}

/// A long document with many H1 sections whose H1-only outline exceeds the default budget.
fn many_chapters(count: usize) -> String {
    let mut md = String::new();
    for i in 0..count {
        md.push_str(&format!(
            "# Chapter {i}: a reasonably long descriptive chapter title\n\n"
        ));
        md.push_str(&"Body text of the chapter.\n".repeat(20));
        md.push_str(&format!("\n## Section {i}.1\n\nMore text.\n\n"));
    }
    md
}

/// A tutorial-like document: a few H1s, more H2s, many H3s.
fn tutorial() -> String {
    let mut md = String::new();
    for a in 0..3 {
        md.push_str(&format!("# Part {a}\n\nIntroduction to the part.\n\n"));
        for b in 0..4 {
            md.push_str(&format!("## Topic {a}.{b}\n\nExplanation of the topic.\n\n"));
            for c in 0..5 {
                md.push_str(&format!(
                    "### Detail {a}.{b}.{c}\n\nSome detailed explanation here.\n\n"
                ));
            }
        }
    }
    md
}

#[test]
fn test_astro_llms_full_exceeds_budget() {
    let md = many_chapters(424);
    let toc = generate_toc(&md, md.len(), &default_config());
    assert!(
        toc.is_none(),
        "Should not generate ToC when even H1s exceed budget"
    );
}

#[test]
fn test_convex_llms_full_exceeds_budget() {
    let md = many_chapters(296);
    let toc = generate_toc(&md, md.len(), &default_config());
    assert!(
        toc.is_none(),
        "Should not generate ToC when even H1s exceed budget"
    );
}

#[test]
fn test_custom_budget_allows_more_headings() {
    let md = tutorial();

    let small_budget = TocConfig {
        toc_budget: 500,
        full_content_threshold: 2000,
    };
    let large_budget = TocConfig {
        toc_budget: 10000,
        full_content_threshold: 2000,
    };

    let toc_small = generate_toc(&md, md.len(), &small_budget);
    let toc_large = generate_toc(&md, md.len(), &large_budget);

    assert!(toc_small.is_some());
    assert!(toc_large.is_some());

    let small_len = toc_small.unwrap().len();
    let large_len = toc_large.unwrap().len();
    assert!(
        large_len >= small_len,
        "Larger budget should allow same or more headings"
    );
}

#[test]
fn test_higher_threshold_skips_more_docs() {
    let md = tutorial();

    let low_threshold = TocConfig {
        toc_budget: 1000,
        full_content_threshold: 1000,
    };
    let high_threshold = TocConfig {
        toc_budget: 1000,
        full_content_threshold: 100000,
    };

    let toc_low = generate_toc(&md, md.len(), &low_threshold);
    let toc_high = generate_toc(&md, md.len(), &high_threshold);

    assert!(toc_low.is_some(), "Low threshold should generate ToC");
    assert!(toc_high.is_none(), "High threshold should skip ToC");
}

#[test]
fn test_zero_threshold_always_generates() {
    let small_md = "# Title\nContent.";

    let config = TocConfig {
        toc_budget: 1000,
        full_content_threshold: 0,
    };

    let toc = generate_toc(small_md, small_md.len(), &config);
    assert!(toc.is_some(), "Zero threshold should always generate ToC");
}

#[test]
fn test_tiny_budget_returns_none() {
    let md = tutorial();

    let tiny_budget = TocConfig {
        toc_budget: 10,
        full_content_threshold: 2000,
    };

    let toc = generate_toc(&md, md.len(), &tiny_budget);
    assert!(
        toc.is_none(),
        "Budget too small for even H1s should return None"
    );
}

#[test]
fn test_config_default_values() {
    let config = TocConfig::default();
    assert_eq!(config.toc_budget, 4000);
    assert_eq!(config.full_content_threshold, 8000);
}

#[test]
fn three_levels_with_zero_threshold() {
    let md = "# H1\n## H2\n### H3";
    let headings = extract_headings(md);
    assert_eq!(
        headings,
        vec![heading(1, 1, "# H1"), heading(2, 2, "## H2"), heading(3, 3, "### H3")]
    );
    let config = TocConfig {
        toc_budget: 4000,
        full_content_threshold: 0,
    };
    assert_eq!(
        generate_toc(md, md.len(), &config).unwrap(),
        "  1→# H1\n  2→## H2\n  3→### H3"
    );
}

#[test]
fn zero_width_space_anchor_removed() {
    let headings = extract_headings("## Title [\u{200B}](#anchor)");
    assert_eq!(headings, vec![heading(2, 1, "## Title")]);
}

#[test]
fn other_invisible_anchors_removed() {
    let headings = extract_headings("## A [\u{FEFF}](#x) B [\u{200C}\u{200D} ](#y)");
    assert_eq!(headings[0].text, "## A  B");
}

#[test]
fn anchor_only_heading_keeps_its_marker() {
    let headings = extract_headings("# [](#only)\n\n## Kept");
    assert_eq!(headings, vec![heading(1, 1, "#"), heading(2, 3, "## Kept")]);
}

#[test]
fn code_span_link_text_is_visible() {
    let headings = extract_headings("## Call [`run`](#run)");
    assert_eq!(headings[0].text, "## Call [`run`](#run)");
}

#[test]
fn heading_text_keeps_markup_and_is_trimmed() {
    let headings = extract_headings("## **Bold** and `code` ##   \n");
    assert_eq!(headings[0].text, "## **Bold** and `code` ##");
}

#[test]
fn one_short_heading_in_large_document() {
    let mut md = String::from("# Only\n");
    while md.len() < 10_000 {
        md.push_str("plain text line\n");
    }
    md.truncate(10_000);
    assert_eq!(md.len(), 10_000);
    let config = TocConfig {
        toc_budget: 4000,
        full_content_threshold: 8000,
    };
    let toc = generate_toc(&md, md.len(), &config).unwrap();
    assert_eq!(toc.lines().count(), 1);
    assert_eq!(toc, "  1→# Only");
}

#[test]
fn h1_outline_over_budget_gives_none() {
    let md = format!("# {}\n\n{}", "t".repeat(300), "body\n".repeat(2000));
    let config = TocConfig {
        toc_budget: 100,
        full_content_threshold: 8000,
    };
    assert!(generate_toc(&md, md.len(), &config).is_none());
}

#[test]
fn below_threshold_gives_none_for_many_headings() {
    let mut md = String::new();
    for i in 0..50 {
        md.push_str(&format!("# H{i}\n## S{i}\n### T{i}\n"));
    }
    let config = TocConfig {
        toc_budget: 100_000,
        full_content_threshold: md.len() + 1,
    };
    assert!(generate_toc(&md, md.len(), &config).is_none());
    assert!(generate_toc(&md, 0, &config).is_none());
}

#[test]
fn size_hint_gates_instead_of_text_length() {
    let md = "# Title";
    let config = default_config();
    assert!(generate_toc(md, 8000, &config).is_some());
    assert!(generate_toc(md, 7999, &config).is_none());
}

#[test]
fn no_headings_gives_none() {
    let md = "just text\n".repeat(1000);
    assert!(generate_toc(&md, md.len(), &default_config()).is_none());
}

#[test]
fn repeated_calls_agree() {
    let md = tutorial();
    let config = TocConfig {
        toc_budget: 2000,
        full_content_threshold: 100,
    };
    let first = generate_toc(&md, md.len(), &config);
    let second = generate_toc(&md, md.len(), &config);
    assert!(first.is_some());
    assert_eq!(first, second);
}

#[test]
fn output_fits_budget() {
    let md = tutorial();
    for budget in [30usize, 100, 500, 1000, 3000, 20000] {
        let config = TocConfig {
            toc_budget: budget,
            full_content_threshold: 0,
        };
        if let Some(toc) = generate_toc(&md, md.len(), &config) {
            assert!(toc.len() <= budget);
        }
    }
}

#[test]
fn larger_budget_selects_deeper_level() {
    let headings = extract_headings(&tutorial());
    let mut previous = 0u8;
    for budget in [60usize, 200, 600, 2000, 5000] {
        if let Some((level, toc)) = find_optimal_level(&headings, budget) {
            assert!(level >= previous);
            assert!(toc.len() <= budget);
            previous = level;
        }
    }
    assert!(find_optimal_level(&headings, 30).is_none());
    assert_eq!(find_optimal_level(&headings, 60).unwrap().0, 1);
    assert_eq!(find_optimal_level(&headings, 500).unwrap().0, 2);
    assert_eq!(find_optimal_level(&headings, 5000).unwrap().0, 3);
}

#[test]
fn shallow_level_kept_when_deeper_overflows() {
    let headings = vec![
        heading(1, 1, "# A"),
        heading(3, 2, "### c"),
        heading(2, 3, &format!("## {}", "b".repeat(100))),
    ];
    let result = find_optimal_level(&headings, 40);
    assert_eq!(result, Some((1, "  1→# A".to_string())));
}

#[test]
fn empty_shallow_levels_are_skipped() {
    // No heading has level 1, so the level-1 outline is empty and never selected; the scan
    // goes on to the deeper levels.
    let headings = vec![heading(3, 1, "### x"), heading(2, 2, &format!("## {}", "y".repeat(50)))];
    assert_eq!(render_toc(&headings, 1), "");
    assert!(find_optimal_level(&headings, 20).is_none());
    let result = find_optimal_level(&headings, 100);
    assert_eq!(result.unwrap(), (3, format!("  1→### x\n  2→## {}", "y".repeat(50))));
    let result = find_optimal_level(&headings, 60);
    assert_eq!(result.unwrap(), (2, format!("  2→## {}", "y".repeat(50))));
}

#[test]
fn column_widens_for_large_line_numbers() {
    let headings = vec![heading(1, 7, "# A"), heading(1, 12345, "# B")];
    assert_eq!(render_toc(&headings, 1), "    7→# A\n12345→# B");
}

#[test]
fn render_uses_last_line_number_for_width() {
    let headings = vec![heading(1, 1000, "# A"), heading(2, 2000, "## B")];
    assert_eq!(render_toc(&headings, 1), "1000→# A");
    assert_eq!(render_toc(&headings, 2), "1000→# A\n2000→## B");
}

#[test]
fn crlf_and_lf_documents_share_line_numbers() {
    let lf = "# One\n\ntext\n\n## Two\n\nmore\n### Three";
    let crlf = lf.replace('\n', "\r\n");
    let a = extract_headings(lf);
    let b = extract_headings(&crlf);
    assert_eq!(a, b);
    assert_eq!(a[2].line_number, 8);
}

#[test]
fn invisible_text_classification() {
    assert!(is_empty_or_invisible(""));
    assert!(is_empty_or_invisible(" \t\u{200B}\u{FEFF}\u{200C}\u{200D}\u{3000}"));
    assert!(!is_empty_or_invisible("\u{200B}a"));
    assert!(!is_empty_or_invisible("\u{2060}"));
}

#[test]
fn slicing_respects_char_boundaries() {
    let s = "aé b";
    assert_eq!(slice_str(s, 0, 1), Some("a"));
    assert_eq!(slice_str(s, 1, 3), Some("é"));
    assert_eq!(slice_str(s, 1, 2), None);
    assert_eq!(slice_str(s, 3, 2), None);
    assert_eq!(slice_str(s, 0, 6), None);
    assert_eq!(slice_str(s, 5, 5), Some(""));
}
