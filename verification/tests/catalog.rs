use homotopy_dsl::catalog::{build_index, is_slug, validate_preset, CatalogError, PresetMetadata};
use homotopy_dsl::community::{active_id, get, parse_active_id, CommunityPreset};
use homotopy_dsl::diagnostics::{Diagnostic, Severity, Span};
use homotopy_dsl::library::{
    active_lesson, categories, community_tags_text, is_active, is_community_active, presets_in, row_class,
    shows_community, tags_text,
};
use homotopy_dsl::presets;
use homotopy_dsl::source_panel::{
    diagnostic_class, diagnostic_counts, dimension_text, span_text, summary_text, Msg as SourceMsg,
    SourceAction,
    SourcePanel, MAX_MOUNT_ATTEMPTS,
};
use homotopy_dsl::workbench::{error_count, Msg, WorkbenchPanel, WorkbenchTab};

fn metadata(id: &str, axioms: &[&str], constructed: &[&str]) -> PresetMetadata {
    PresetMetadata {
        id: id.to_string(),
        title: "Title".to_string(),
        category: "Examples".to_string(),
        description: "Description".to_string(),
        author: "Someone".to_string(),
        license: "MIT".to_string(),
        min_app_version: "0.1.0".to_string(),
        tags: vec!["tag".to_string()],
        axioms: axioms.iter().map(|s| s.to_string()).collect(),
        constructed: constructed.iter().map(|s| s.to_string()).collect(),
        source: "source.homl".to_string(),
        didactic: "didactic.md".to_string(),
        proof: None,
    }
}

fn community(id: &str, didactic: Option<&str>) -> CommunityPreset {
    CommunityPreset {
        id: id.to_string(),
        title: id.to_string(),
        category: "Community".to_string(),
        description: String::new(),
        author: String::new(),
        license: String::new(),
        min_app_version: String::new(),
        tags: Vec::new(),
        axioms: Vec::new(),
        constructed: Vec::new(),
        source: String::new(),
        didactic: didactic.map(|s| s.to_string()),
    }
}

const CANCEL: &str = "cell A; cell B; cell f: A <-> B; prove cancel: f * inv(f) -> id(A); show cancel;";

#[test]
fn slugs_are_lowercase_words_joined_by_single_dashes() {
    assert!(is_slug("eckmann-hilton"));
    assert!(is_slug("a1-b2"));
    assert!(!is_slug(""));
    assert!(!is_slug("-start"));
    assert!(!is_slug("end-"));
    assert!(!is_slug("double--dash"));
    assert!(!is_slug("Upper"));
    assert!(!is_slug("under_score"));
}

#[test]
fn valid_presets_are_accepted_with_their_sources() {
    let meta = metadata("cancel", &["f", "B", "A", "A"], &["cancel"]);
    let preset = validate_preset("cancel", meta, CANCEL.to_string(), "note".to_string()).unwrap();
    assert_eq!(preset.id, "cancel");
    assert_eq!(preset.source, CANCEL);
    assert_eq!(preset.didactic.as_deref(), Some("note"));
    assert_eq!(preset.axioms, vec!["f", "B", "A", "A"]);
}

#[test]
fn preset_ids_must_name_their_folder() {
    let err = validate_preset("other", metadata("cancel", &[], &[]), CANCEL.to_string(), String::new()).unwrap_err();
    assert!(matches!(err, CatalogError::IdMismatch { .. }));
    assert_eq!(err.message(), "preset `cancel` id does not match folder `other`");
}

#[test]
fn preset_ids_must_be_slugs() {
    let err = validate_preset("Bad_Id", metadata("Bad_Id", &[], &[]), CANCEL.to_string(), String::new()).unwrap_err();
    assert_eq!(err.message(), "preset id `Bad_Id` is not a lowercase slug");
}

#[test]
fn presets_must_compile() {
    let err = validate_preset("broken", metadata("broken", &[], &[]), "cell A; cell A;".to_string(), String::new())
        .unwrap_err();
    assert_eq!(
        err.message(),
        "preset `broken` did not compile: [Diagnostic { severity: Error, message: \"duplicate symbol `A`\", span: Span { start: 8, end: 15 } }]"
    );
}

#[test]
fn declared_axioms_must_match() {
    let err = validate_preset("cancel", metadata("cancel", &["A", "f"], &["cancel"]), CANCEL.to_string(), String::new())
        .unwrap_err();
    assert_eq!(
        err.message(),
        "preset `cancel` declared axioms {\"A\", \"f\"}, but compiled axioms are {\"A\", \"B\", \"f\"}"
    );
}

#[test]
fn declared_constructed_symbols_must_match() {
    let err = validate_preset("cancel", metadata("cancel", &["A", "B", "f"], &[]), CANCEL.to_string(), String::new())
        .unwrap_err();
    assert_eq!(
        err.message(),
        "preset `cancel` declared constructed symbols {}, but compiled constructed symbols are {\"cancel\"}"
    );
}

#[test]
fn the_index_is_sorted_by_id() {
    let index = build_index(vec![community("b", None), community("a", None), community("c", None), community("a", Some("second"))]);
    assert_eq!(index.version, 1);
    let ids: Vec<&str> = index.presets.iter().map(|p| p.id.as_str()).collect();
    assert_eq!(ids, vec!["a", "a", "b", "c"]);
    assert_eq!(index.presets[1].didactic.as_deref(), Some("second"));
}

#[test]
fn community_ids_round_trip() {
    assert_eq!(active_id("knots"), "community:knots");
    assert_eq!(parse_active_id(&active_id("knots")), Some("knots"));
    assert_eq!(parse_active_id("community:"), Some(""));
    assert_eq!(parse_active_id("basics"), None);
    assert_eq!(parse_active_id("communit"), None);
}

#[test]
fn community_presets_are_found_by_id() {
    let list = vec![community("a", None), community("b", Some("note"))];
    assert_eq!(get(&list, "b").unwrap().didactic.as_deref(), Some("note"));
    assert!(get(&list, "c").is_none());
}

#[test]
fn builtin_presets_are_found_by_id() {
    assert_eq!(presets::all().len(), 10);
    assert_eq!(presets::default_preset().id, "adjunction");
    assert_eq!(presets::get("eckmann-hilton").unwrap().title, "Eckmann-Hilton");
    assert!(presets::get("missing").is_none());
}

#[test]
fn library_categories_are_sorted_and_distinct() {
    let all = presets::all();
    let cats = categories(&all);
    assert_eq!(
        cats,
        vec![
            "Adjunction", "Basics", "Braids", "Equivalence", "Examples", "Proofs", "Properties",
            "Specification", "Structures"
        ]
    );
}

#[test]
fn lessons_follow_the_active_preset() {
    let all = presets::all();
    let list = vec![community("knots", Some("Knot note")), community("plain", None)];
    assert_eq!(active_lesson(&all, &list, None), "Choose a preset to load its source and lesson note.");
    assert_eq!(active_lesson(&all, &list, Some("basics")), all[0].lesson);
    assert_eq!(active_lesson(&all, &list, Some("community:knots")), "Knot note");
    assert_eq!(
        active_lesson(&all, &list, Some("community:plain")),
        "Community presets can include didactic notes after review."
    );
    assert_eq!(
        active_lesson(&all, &list, Some("nothing")),
        "Community presets can include didactic notes after review."
    );
}

#[test]
fn workbench_tabs_switch_and_apply() {
    let mut panel = WorkbenchPanel::create();
    assert_eq!(panel.active, WorkbenchTab::Source);
    assert!(panel.shows_apply());
    let u = panel.update(Msg::Select(WorkbenchTab::Source));
    assert!(!u.render && !u.apply_source);
    let u = panel.update(Msg::Select(WorkbenchTab::Library));
    assert!(u.render && !u.apply_source);
    assert!(panel.is_selected(WorkbenchTab::Library));
    assert!(!panel.shows_apply());
    let u = panel.update(Msg::Apply);
    assert!(!u.render && u.apply_source);
    assert_eq!(panel.active, WorkbenchTab::Library);
}

fn diag(severity: Severity) -> Diagnostic {
    Diagnostic { severity, message: "m".to_string(), span: Span { start: 3, end: 7 } }
}

#[test]
fn diagnostics_are_counted_by_severity() {
    let ds = vec![diag(Severity::Error), diag(Severity::Warning), diag(Severity::Error)];
    assert_eq!(error_count(&ds), 2);
    assert_eq!(diagnostic_counts(&ds), (2, 1));
    assert_eq!(summary_text(2, 1), "2 errors / 1 warnings");
    assert_eq!(span_text(Span { start: 3, end: 7 }), "3..7");
    assert_eq!(diagnostic_class(Severity::Warning), "diagnostics__item diagnostics__item--warning");
}

#[test]
fn editor_mounting_is_retried_a_bounded_number_of_times() {
    let mut panel = SourcePanel::create("cell A;".to_string());
    let mut started = 0;
    for _ in 0..100 {
        if panel.schedule_retry() {
            started += 1;
            assert!(!panel.schedule_retry());
            let (render, action) = panel.update(SourceMsg::RetryEditor);
            assert!(render && action.is_none());
        }
    }
    assert_eq!(started, MAX_MOUNT_ATTEMPTS as usize);
    panel.mounted();
    assert!(panel.schedule_retry());
}

#[test]
fn source_edits_are_passed_on() {
    let mut panel = SourcePanel::create("cell A;".to_string());
    let (render, action) = panel.update(SourceMsg::Changed("cell B;".to_string()));
    assert!(!render);
    assert!(matches!(action, Some(SourceAction::SetSource(s)) if s == "cell B;"));
    assert!(!panel.source_changed("cell A;"));
    assert!(panel.source_changed("cell B;"));
    assert_eq!(panel.last_source, "cell B;");
}

#[test]
fn presets_are_listed_by_category() {
    let all = presets::all();
    let basics = presets_in(&all, "Basics");
    assert!(!basics.is_empty());
    assert!(basics.iter().all(|p| p.category == "Basics"));
    let expected: Vec<&str> = all.iter().filter(|p| p.category == "Basics").map(|p| p.id).collect();
    assert_eq!(basics.iter().map(|p| p.id).collect::<Vec<_>>(), expected);
    assert!(presets_in(&all, "Nothing").is_empty());
}

#[test]
fn the_active_preset_is_marked() {
    assert!(is_active(Some("basics"), "basics"));
    assert!(!is_active(Some("basics"), "braids"));
    assert!(!is_active(None, "basics"));
}

#[test]
fn tags_are_joined_with_slashes() {
    assert_eq!(tags_text(&["a", "b", "c"]), "a / b / c");
    assert_eq!(tags_text(&["only"]), "only");
    assert_eq!(tags_text(&[]), "");
    assert_eq!(community_tags_text(&vec!["x".to_string(), "y".to_string()]), "x / y");
    assert_eq!(community_tags_text(&vec![]), "");
}

#[test]
fn renders_destroy_emptied_editors_and_mount_missing_ones() {
    assert_eq!(SourcePanel::before_mount(true, true), (true, true));
    assert_eq!(SourcePanel::before_mount(true, false), (false, false));
    assert_eq!(SourcePanel::before_mount(false, true), (false, true));
    assert_eq!(SourcePanel::before_mount(false, false), (false, true));
}

#[test]
fn renders_pass_only_changes_to_the_editor() {
    let mut panel = SourcePanel::create("cell A;".to_string());
    let ds = vec![diag(Severity::Error)];
    assert_eq!(panel.sync("cell A;", &vec![]), (false, false));
    assert_eq!(panel.sync("cell A;", &ds), (false, true));
    assert_eq!(panel.last_diagnostics, ds);
    assert_eq!(panel.sync("cell B;", &ds), (true, false));
    assert_eq!(panel.sync("cell B;", &vec![]), (false, true));
    assert!(panel.last_diagnostics.is_empty());
}

#[test]
fn destroying_the_panel_cancels_the_retry() {
    let mut panel = SourcePanel::create(String::new());
    assert!(panel.schedule_retry());
    panel.destroy();
    assert!(!panel.retry_pending);
    assert_eq!(panel.mount_attempts, 1);
}

#[test]
fn symbol_dimensions_are_shown() {
    assert_eq!(dimension_text(0), "0D");
    assert_eq!(dimension_text(12), "12D");
}

#[test]
fn tab_buttons_show_selection_and_badges() {
    let panel = WorkbenchPanel::create();
    let source = panel.tab_button(WorkbenchTab::Source, 3);
    assert_eq!(source.class, "workbench-tab workbench-tab--active");
    assert_eq!(source.selected, "true");
    assert_eq!(source.badge, Some(3));
    let library = panel.tab_button(WorkbenchTab::Library, 0);
    assert_eq!(library.class, "workbench-tab");
    assert_eq!(library.selected, "false");
    assert_eq!(library.badge, None);
}

#[test]
fn community_rows_are_marked_by_their_library_identifier() {
    assert!(is_community_active(Some("community:knots"), "knots"));
    assert!(!is_community_active(Some("knots"), "knots"));
    assert!(!is_community_active(None, "knots"));
    assert_eq!(row_class(true), "preset-row preset-row--active");
    assert_eq!(row_class(false), "preset-row");
    assert!(!shows_community(&[]));
    assert!(shows_community(&[community("knots", None)]));
}

#[test]
fn preset_lookups_return_the_built_in_records() {
    let all = presets::all();
    for p in &all {
        assert_eq!(presets::get(p.id), Some(*p));
    }
    assert_eq!(presets::get("basics"), Some(all[0]));
    assert_eq!(presets::get("paper-action-replay"), Some(all[9]));
    assert_eq!(presets::get("Basics"), None);
    assert_eq!(presets::get(""), None);
    let d = presets::default_preset();
    assert_eq!(d, all[1]);
    assert_eq!(d.id, "adjunction");
    assert_eq!(d.title, "Adjunction");
    assert!(d.source.contains("struct Adjunction"));
    assert_eq!(presets::preset_at(10), None);
}

#[test]
fn the_index_of_distinct_ids_strictly_increases() {
    let index = build_index(vec![community("b", None), community("a", None), community("c", None)]);
    let ids: Vec<&str> = index.presets.iter().map(|p| p.id.as_str()).collect();
    assert_eq!(ids, vec!["a", "b", "c"]);
    assert!(ids.windows(2).all(|w| w[0] < w[1]));
}
