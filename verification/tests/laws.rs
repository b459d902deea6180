use quill::{extract_scope, Scope};

const SAMPLE: &str = "
title = \"App\"

@dev
debug = true

@prod
optimized = true

@dev @test
extra_checks = true

@global
do_tests = true";

const TEXTS: [&str; 15] = [
    "",
    "@\n",
    "@dev\n@\n  @ kept\n@prod\n@",
    "x\n@ @\n",
    "\n",
    "a = 1",
    "a = 1\n",
    "@dev\na = 1\n",
    "@dev\na = 1",
    "a\n@dev\nb\n@prod @dev\nc\n@global\nd\n",
    "a\r\n@dev\r\nb\r\n",
    "  @x   note\n\n\n@y @z\nv = \"@w\"\n",
    "@dev\nfoo",
    "a\n@dev",
    SAMPLE,
];

const TARGETS: [&str; 7] = ["global", "dev", "prod", "test", "x", "z", "none"];

fn line_feeds(text: &str) -> usize {
    text.matches('\n').count()
}

#[test]
fn line_feeds_are_kept() {
    for text in TEXTS {
        for target in TARGETS {
            let out = extract_scope(text, Scope::DefinedScope(target)).unwrap();
            assert_eq!(line_feeds(&out), line_feeds(text), "{:?} for {}", text, target);
        }
    }
}

#[test]
fn line_count_is_kept_when_the_text_ends_with_a_line_feed() {
    for text in TEXTS {
        if text.ends_with('\n') || text.is_empty() {
            for target in TARGETS {
                let out = extract_scope(text, Scope::DefinedScope(target)).unwrap();
                assert_eq!(out.lines().count(), text.lines().count(), "{:?} for {}", text, target);
            }
        }
    }
}

#[test]
fn line_count_is_kept_when_the_last_line_stays() {
    let text = "@dev\na\n@prod\nlast";
    let out = extract_scope(text, Scope::DefinedScope("prod")).unwrap();
    assert_eq!(out, "\n\n\nlast");
    assert_eq!(out.lines().count(), 4);
    assert_eq!(text.lines().count(), 4);
}

#[test]
fn each_line_keeps_its_place() {
    for text in TEXTS {
        if !text.ends_with('\n') {
            continue;
        }
        for target in TARGETS {
            let out = extract_scope(text, Scope::DefinedScope(target)).unwrap();
            let before: Vec<&str> = text.lines().collect();
            let after: Vec<&str> = out.lines().collect();
            assert_eq!(before.len(), after.len());
            for (old, new) in before.iter().zip(after.iter()) {
                assert!(new.is_empty() || new == old, "{:?} became {:?}", old, new);
            }
        }
    }
}

#[test]
fn a_blank_last_line_without_line_feed_is_lost() {
    let text = "@dev\nfoo";
    let out = extract_scope(text, Scope::DefinedScope("prod")).unwrap();
    assert_eq!(out, "\n");
    assert_eq!(text.lines().count(), 2);
    assert_eq!(out.lines().count(), 1);
    assert_eq!(line_feeds(&out), line_feeds(text));
}

#[test]
fn global_sees_all_content() {
    let text = "a\n@dev\nb\n@prod\nc\n@global\nd\n";
    assert_eq!(extract_scope(text, Scope::Global).unwrap(), "a\n\nb\n\nc\n\nd\n");
}

#[test]
fn global_extraction_where_all_content_is_global() {
    let text = "a\n@global\nb\n@dev\n\n@global @dev\nc\n";
    assert_eq!(extract_scope(text, Scope::Global).unwrap(), "a\n\nb\n\n\n\nc\n");
}

#[test]
fn scopes_declared_together_share_their_content() {
    let text = "top\n@a @b\nshared\nmore\n@d\nother\n";
    assert_eq!(extract_scope(text, Scope::DefinedScope("a")).unwrap(), "top\n\nshared\nmore\n\n\n");
    assert_eq!(extract_scope(text, Scope::DefinedScope("b")).unwrap(), "top\n\nshared\nmore\n\n\n");
    assert_eq!(extract_scope(text, Scope::DefinedScope("c")).unwrap(), "top\n\n\n\n\n\n");
}

#[test]
fn extraction_is_idempotent_without_carriage_returns() {
    for text in TEXTS {
        for target in TARGETS {
            let once = extract_scope(text, Scope::DefinedScope(target)).unwrap();
            if once.contains("\r\n") {
                continue;
            }
            let twice = extract_scope(&once, Scope::DefinedScope(target)).unwrap();
            assert_eq!(twice, once, "{:?} for {}", text, target);
        }
    }
}

#[test]
fn a_carriage_return_before_a_line_feed_is_lost_on_rereading() {
    let once = extract_scope("a\r\r\n", Scope::Global).unwrap();
    assert_eq!(once, "a\r\n");
    let twice = extract_scope(&once, Scope::Global).unwrap();
    assert_eq!(twice, "a\n");
}

#[test]
fn the_sample_round_trips_for_dev() {
    let dev = extract_scope(SAMPLE, Scope::DefinedScope("dev")).unwrap();
    let before: Vec<&str> = SAMPLE.lines().collect();
    let after: Vec<&str> = dev.lines().collect();
    assert_eq!(before.len(), 14);
    assert_eq!(after.len(), 14);
    let kept = [1usize, 4, 10, 13];
    for i in 0..14 {
        if kept.contains(&i) {
            assert_eq!(after[i], before[i]);
            assert!(!after[i].is_empty());
        } else {
            assert_eq!(after[i], "");
        }
    }
    assert_eq!(dev.ends_with('\n'), SAMPLE.ends_with('\n'));
    let with_newline = format!("{SAMPLE}\n");
    let dev = extract_scope(&with_newline, Scope::DefinedScope("dev")).unwrap();
    assert!(dev.ends_with('\n'));
    assert_eq!(dev.lines().count(), 14);
}
