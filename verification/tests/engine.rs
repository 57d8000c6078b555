//! The incremental rebuild engine: fingerprinting, classification, target
//! expansion, the render gate, and the watch-loop state machine.

use bamboo_ssg::cache::{classify_changes, ChangeClassification};
use bamboo_ssg::dates::{extract_post_slug, parse_date_from_filename};
use bamboo_ssg::digest_map::DigestMap;
use bamboo_ssg::hashing::{compute_content_hashes, file_digest};
use bamboo_ssg::targets::{
    should_render, should_render_any_collection, should_render_any_page, should_render_any_post,
    RenderTarget, TargetSet,
};
use bamboo_ssg::cache::expand_targets;
use bamboo_ssg::watch::{
    apply_render_outcome, plan_rebuild, watch_step, WatchAction, WatchEvent, WatchState,
    DEBOUNCE_MS,
};
use bamboo_ssg::cache::BuildState;

fn map_of(entries: &[(&str, &str)]) -> DigestMap {
    let mut m = DigestMap::new();
    for (k, v) in entries {
        m.insert(k.to_string(), v.to_string());
    }
    m
}

#[test]
fn test_classify_changes_no_changes() {
    let hashes = map_of(&[("file.md", "abc")]);
    let classification = classify_changes(&hashes, &hashes);

    assert_eq!(
        classification,
        ChangeClassification::Targeted {
            changed_files: vec![]
        }
    );
}

#[test]
fn test_classify_changes_content_change() {
    let old = map_of(&[("content/about.md", "abc")]);
    let new = map_of(&[("content/about.md", "def")]);

    let classification = classify_changes(&old, &new);

    match classification {
        ChangeClassification::Targeted { changed_files } => {
            assert_eq!(changed_files.len(), 1);
            assert_eq!(changed_files[0], "content/about.md".to_string());
        }
        ChangeClassification::Full => panic!("expected Targeted"),
    }
}

#[test]
fn test_classify_changes_config_change() {
    let old = map_of(&[("bamboo.toml", "abc")]);
    let new = map_of(&[("bamboo.toml", "def")]);

    let classification = classify_changes(&old, &new);
    assert_eq!(classification, ChangeClassification::Full);
}

#[test]
fn test_classify_changes_template_change() {
    let old = map_of(&[("templates/base.html", "abc")]);
    let new = map_of(&[("templates/base.html", "def")]);

    let classification = classify_changes(&old, &new);
    assert_eq!(classification, ChangeClassification::Full);
}

#[test]
fn test_classify_changes_new_file() {
    let old = DigestMap::new();
    let new = map_of(&[("content/new.md", "abc")]);

    let classification = classify_changes(&old, &new);
    match classification {
        ChangeClassification::Targeted { changed_files } => {
            assert_eq!(changed_files.len(), 1);
        }
        ChangeClassification::Full => panic!("expected Targeted"),
    }
}

#[test]
fn test_classify_changes_deleted_file() {
    let old = map_of(&[("content/old.md", "abc")]);
    let new = DigestMap::new();

    let classification = classify_changes(&old, &new);
    assert_eq!(classification, ChangeClassification::Full);
}

#[test]
fn test_expand_targets_full() {
    let targets = expand_targets(&ChangeClassification::Full);
    assert!(targets.contains(&RenderTarget::All));
}

#[test]
fn test_expand_targets_empty() {
    let targets = expand_targets(&ChangeClassification::Targeted {
        changed_files: vec![],
    });
    assert!(targets.is_empty());
}

#[test]
fn test_expand_targets_post_change() {
    let targets = expand_targets(&ChangeClassification::Targeted {
        changed_files: vec!["content/posts/2024-01-15-hello.md".to_string()],
    });

    assert!(targets.contains(&RenderTarget::Post("hello".to_string())));
    assert!(targets.contains(&RenderTarget::Pagination));
    assert!(targets.contains(&RenderTarget::Feeds));
    assert!(targets.contains(&RenderTarget::Sitemap));
    assert!(targets.contains(&RenderTarget::SearchIndex));
    assert!(targets.contains(&RenderTarget::AllTaxonomies));
    assert!(targets.contains(&RenderTarget::Page("index".to_string())));
    assert!(!should_render_any_collection(&targets));
}

#[test]
fn test_expand_targets_page_change() {
    let targets = expand_targets(&ChangeClassification::Targeted {
        changed_files: vec!["content/about.md".to_string()],
    });

    assert!(targets.contains(&RenderTarget::Page("about".to_string())));
    assert!(targets.contains(&RenderTarget::Sitemap));
    assert!(targets.contains(&RenderTarget::SearchIndex));
    assert!(!targets.contains(&RenderTarget::Pagination));
    assert!(!targets.contains(&RenderTarget::Feeds));
    assert!(!should_render_any_post(&targets));
    assert!(!should_render_any_collection(&targets));
}

#[test]
fn test_expand_targets_collection_change() {
    let targets = expand_targets(&ChangeClassification::Targeted {
        changed_files: vec!["content/docs/intro.md".to_string()],
    });

    assert!(targets.contains(&RenderTarget::Collection("docs".to_string())));
    assert!(targets.contains(&RenderTarget::Sitemap));
    assert!(targets.contains(&RenderTarget::SearchIndex));
    assert!(!targets.contains(&RenderTarget::Pagination));
    assert!(!should_render_any_post(&targets));
    assert!(!should_render_any_page(&targets));
}

#[test]
fn test_expand_targets_static_change() {
    let targets = expand_targets(&ChangeClassification::Targeted {
        changed_files: vec!["static/style.css".to_string()],
    });

    assert!(targets.contains(&RenderTarget::All));
}

#[test]
fn test_should_render_with_all() {
    let mut targets = TargetSet::new();
    targets.insert(RenderTarget::All);

    assert!(should_render(&targets, &RenderTarget::Page("about".to_string())));
    assert!(should_render(&targets, &RenderTarget::Post("hello".to_string())));
    assert!(should_render(&targets, &RenderTarget::Pagination));
}

#[test]
fn test_should_render_specific() {
    let mut targets = TargetSet::new();
    targets.insert(RenderTarget::Page("about".to_string()));

    assert!(should_render(&targets, &RenderTarget::Page("about".to_string())));
    assert!(!should_render(&targets, &RenderTarget::Page("contact".to_string())));
    assert!(!should_render(&targets, &RenderTarget::Post("hello".to_string())));
}

#[test]
fn test_should_render_any_post() {
    let mut targets = TargetSet::new();
    targets.insert(RenderTarget::Post("hello".to_string()));
    targets.insert(RenderTarget::Pagination);

    assert!(should_render_any_post(&targets));
    assert!(!should_render_any_page(&targets));
}

#[test]
fn test_should_render_any_page() {
    let mut targets = TargetSet::new();
    targets.insert(RenderTarget::Page("about".to_string()));

    assert!(should_render_any_page(&targets));
    assert!(!should_render_any_post(&targets));
}

#[test]
fn test_should_render_any_collection() {
    let mut targets = TargetSet::new();
    targets.insert(RenderTarget::Collection("docs".to_string()));

    assert!(should_render_any_collection(&targets));
    assert!(!should_render_any_post(&targets));
}

#[test]
fn test_extract_post_slug_with_date() {
    assert_eq!(extract_post_slug("2024-01-15-hello.md"), "hello");
}

#[test]
fn test_extract_post_slug_without_date() {
    assert_eq!(extract_post_slug("my-post.md"), "my-post");
}

#[test]
fn test_parse_date_from_filename() {
    assert_eq!(
        parse_date_from_filename("2024-01-15-hello-world.md"),
        Some(("2024-01-15".to_string(), "hello-world".to_string()))
    );
    assert_eq!(parse_date_from_filename("about.md"), None);
}

#[test]
fn test_parse_date_rejects_unreal_dates() {
    assert_eq!(parse_date_from_filename("2023-02-29-leap.md"), None);
    assert!(parse_date_from_filename("2024-02-29-leap.md").is_some());
    assert_eq!(parse_date_from_filename("2024-13-01-month.md"), None);
    assert_eq!(parse_date_from_filename("2024-00-10-month.md"), None);
    assert_eq!(parse_date_from_filename("2024-04-31-day.md"), None);
}

#[test]
fn test_file_digest_known_value() {
    // SHA-256 of the empty input and of "abc", as published in FIPS 180-2.
    assert_eq!(
        file_digest(&Vec::new()),
        "e3b0c44298fc1c149afbf4c8996fb92427ae41e4649b934ca495991b7852b855"
    );
    assert_eq!(
        file_digest(&b"abc".to_vec()),
        "ba7816bf8f01cfea414140de5dae2223b00361a396177a9cb410ff61f20015ad"
    );
}

#[test]
fn test_compute_content_hashes_collects_all_paths() {
    let files = vec![
        ("bamboo.toml".to_string(), b"title = \"Test\"".to_vec()),
        ("content/about.md".to_string(), b"about page".to_vec()),
    ];
    let hashes = compute_content_hashes(&files);
    assert_eq!(hashes.len(), 2);
    assert!(hashes.contains_key(&"bamboo.toml".to_string()));
    assert!(hashes.contains_key(&"content/about.md".to_string()));
    let digest = hashes.get(&"content/about.md".to_string()).unwrap();
    assert_eq!(digest.len(), 64);
    assert!(digest.chars().all(|c| c.is_ascii_hexdigit()));
}

#[test]
fn test_compute_content_hashes_deterministic() {
    let files = vec![("bamboo.toml".to_string(), b"title = \"Test\"".to_vec())];
    let first = compute_content_hashes(&files);
    let second = compute_content_hashes(&files);
    assert_eq!(
        first.get(&"bamboo.toml".to_string()),
        second.get(&"bamboo.toml".to_string())
    );
}

#[test]
fn test_watch_change_arms_debounce() {
    let (state, action) = watch_step(&WatchState::Idle, &WatchEvent::ChangeNoticed { at_ms: 1000 });
    assert_eq!(state, WatchState::Draining { deadline_ms: 1000 + DEBOUNCE_MS });
    assert_eq!(action, WatchAction::Wait);
}

#[test]
fn test_watch_change_slides_deadline() {
    let armed = WatchState::Draining { deadline_ms: 1300 };
    let (state, action) = watch_step(&armed, &WatchEvent::ChangeNoticed { at_ms: 1200 });
    assert_eq!(state, WatchState::Draining { deadline_ms: 1200 + DEBOUNCE_MS });
    assert_eq!(action, WatchAction::Wait);
}

#[test]
fn test_watch_quiet_tick_fires_rebuild() {
    let armed = WatchState::Draining { deadline_ms: 1300 };
    let (state, action) = watch_step(&armed, &WatchEvent::Tick { at_ms: 1300 });
    assert_eq!(state, WatchState::Idle);
    assert_eq!(action, WatchAction::Rebuild);
}

#[test]
fn test_watch_early_tick_waits() {
    let armed = WatchState::Draining { deadline_ms: 1300 };
    let (state, action) = watch_step(&armed, &WatchEvent::Tick { at_ms: 1299 });
    assert_eq!(state, armed);
    assert_eq!(action, WatchAction::Wait);
}

#[test]
fn test_watch_idle_tick_waits() {
    let (state, action) = watch_step(&WatchState::Idle, &WatchEvent::Tick { at_ms: 99 });
    assert_eq!(state, WatchState::Idle);
    assert_eq!(action, WatchAction::Wait);
}

#[test]
fn test_render_failure_keeps_last_good_state() {
    let good = BuildState {
        content_hashes: map_of(&[("content/about.md", "abc")]),
    };
    let fresh = BuildState {
        content_hashes: map_of(&[("content/about.md", "def")]),
    };
    let (kept, error) = apply_render_outcome(
        Some(good),
        fresh,
        Err("template exploded".to_string()),
    );
    let kept = kept.expect("last-known-good state must survive a failed render");
    assert_eq!(
        kept.content_hashes.get(&"content/about.md".to_string()),
        Some(&"abc".to_string())
    );
    assert_eq!(error, Some("template exploded".to_string()));
}

#[test]
fn test_render_success_adopts_fresh_state() {
    let good = BuildState {
        content_hashes: map_of(&[("content/about.md", "abc")]),
    };
    let fresh = BuildState {
        content_hashes: map_of(&[("content/about.md", "def")]),
    };
    let (kept, error) = apply_render_outcome(Some(good), fresh, Ok(()));
    let kept = kept.expect("a successful render must store the fresh state");
    assert_eq!(
        kept.content_hashes.get(&"content/about.md".to_string()),
        Some(&"def".to_string())
    );
    assert_eq!(error, None);
}

/// A tiny renderer double: records which artifacts it would write, gated
/// exactly as the real renderer must gate them.
struct WriteRecorder {
    writes: Vec<String>,
}

impl WriteRecorder {
    fn render(&mut self, targets: &TargetSet, artifacts: &[(&str, RenderTarget)]) {
        for (path, target) in artifacts {
            if should_render(targets, target) {
                self.writes.push(path.to_string());
            }
        }
    }
}

fn site_files(about: &str, hello_body: &str) -> Vec<(String, Vec<u8>)> {
    vec![
        ("bamboo.toml".to_string(), b"title = \"T\"".to_vec()),
        ("content/about.md".to_string(), about.as_bytes().to_vec()),
        (
            "content/posts/2024-01-15-hello-world.md".to_string(),
            hello_body.as_bytes().to_vec(),
        ),
    ]
}

fn artifacts() -> Vec<(&'static str, RenderTarget)> {
    vec![
        ("about/index.html", RenderTarget::Page("about".to_string())),
        (
            "posts/hello-world/index.html",
            RenderTarget::Post("hello-world".to_string()),
        ),
        ("index.html", RenderTarget::Page("index".to_string())),
        ("sitemap.xml", RenderTarget::Sitemap),
        ("search-index.json", RenderTarget::SearchIndex),
        ("feed.xml", RenderTarget::Feeds),
        ("page/2/index.html", RenderTarget::Pagination),
    ]
}

#[test]
fn test_noop_rebuild_writes_nothing() {
    // First build: no prior state, so the plan is a full build.
    let first_hashes = compute_content_hashes(&site_files("about", "hello"));
    assert!(plan_rebuild(&None, &first_hashes).is_none());
    let stored = BuildState {
        content_hashes: first_hashes,
    };

    // A later build with nothing changed must classify as the no-op case,
    // and the renderer must then leave every artifact alone.
    let second_hashes = compute_content_hashes(&site_files("about", "hello"));
    let classification = classify_changes(&stored.content_hashes, &second_hashes);
    assert_eq!(
        classification,
        ChangeClassification::Targeted {
            changed_files: vec![]
        }
    );
    let targets = plan_rebuild(&Some(stored), &second_hashes).unwrap();
    assert!(targets.is_empty());
    let mut recorder = WriteRecorder { writes: vec![] };
    recorder.render(&targets, &artifacts());
    assert!(recorder.writes.is_empty());
}

#[test]
fn test_selective_rebuild_spares_untouched_page() {
    let first_hashes = compute_content_hashes(&site_files("about", "hello"));
    let stored = BuildState {
        content_hashes: first_hashes,
    };

    // Only the post body changes.
    let second_hashes = compute_content_hashes(&site_files("about", "hello, edited"));
    let targets = plan_rebuild(&Some(stored), &second_hashes).unwrap();
    let mut recorder = WriteRecorder { writes: vec![] };
    recorder.render(&targets, &artifacts());

    // The post page, home page, pagination, feeds, sitemap and search index
    // are rewritten; the independent page is left untouched.
    assert!(recorder.writes.contains(&"posts/hello-world/index.html".to_string()));
    assert!(recorder.writes.contains(&"index.html".to_string()));
    assert!(recorder.writes.contains(&"page/2/index.html".to_string()));
    assert!(recorder.writes.contains(&"feed.xml".to_string()));
    assert!(recorder.writes.contains(&"sitemap.xml".to_string()));
    assert!(recorder.writes.contains(&"search-index.json".to_string()));
    assert!(!recorder.writes.contains(&"about/index.html".to_string()));
}

#[test]
fn test_digest_map_overwrites_existing_key() {
    let mut m = DigestMap::new();
    m.insert("a".to_string(), "1".to_string());
    m.insert("a".to_string(), "2".to_string());
    assert_eq!(m.len(), 1);
    assert_eq!(m.get(&"a".to_string()), Some(&"2".to_string()));
    assert_eq!(m.get(&"b".to_string()), None);
}

#[test]
fn test_changed_files_complete_and_unique() {
    // Both the modified and the brand-new key appear, each exactly once,
    // and the unchanged key does not.
    let old = map_of(&[("content/a.md", "1"), ("content/b.md", "2")]);
    let new = map_of(&[("content/a.md", "9"), ("content/b.md", "2"), ("content/c.md", "3")]);
    match classify_changes(&old, &new) {
        ChangeClassification::Targeted { changed_files } => {
            assert_eq!(changed_files.len(), 2);
            assert!(changed_files.contains(&"content/a.md".to_string()));
            assert!(changed_files.contains(&"content/c.md".to_string()));
            assert!(!changed_files.contains(&"content/b.md".to_string()));
        }
        ChangeClassification::Full => panic!("expected Targeted"),
    }
}

#[test]
fn test_full_dominance_over_every_target_kind() {
    let targets = expand_targets(&ChangeClassification::Full);
    assert!(should_render(&targets, &RenderTarget::Page("any".to_string())));
    assert!(should_render(&targets, &RenderTarget::Post("any".to_string())));
    assert!(should_render(&targets, &RenderTarget::Collection("any".to_string())));
    assert!(should_render(&targets, &RenderTarget::Pagination));
    assert!(should_render(&targets, &RenderTarget::AllTaxonomies));
    assert!(should_render(&targets, &RenderTarget::Feeds));
    assert!(should_render(&targets, &RenderTarget::Sitemap));
    assert!(should_render(&targets, &RenderTarget::SearchIndex));
    assert!(should_render(&targets, &RenderTarget::All));
}
