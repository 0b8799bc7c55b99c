use weavr::conflict::{parse, ParseError, Segment};
use weavr::headless::{process_batch, process_text, HeadlessError};
use weavr::hunk::{apply_strategy, HunkState, Origin, StrategyError, StrategyKind};
use weavr::interactive::finish_interactive;
use weavr::session::{
    LifecycleError, LifecycleState, MergeSession, ResolutionSource, ResolveError, SessionError,
    StructuralError,
};

const SCENARIO: &str = "line1\n<<<<<<< HEAD\nfoo\n=======\nbar\n>>>>>>> feature\nline2\n";

const TWO_SAME: &str = "a\n<<<<<<< HEAD\nx\n=======\ny\n>>>>>>> b\nmid\n<<<<<<< HEAD\nx\n=======\ny\n>>>>>>> b\nz\n";

fn finish(mut s: MergeSession) -> String {
    s.apply().unwrap();
    s.validate().unwrap();
    s.complete().unwrap().content
}

fn resolve_all(text: &str, kind: StrategyKind) -> String {
    let mut s = MergeSession::from_conflicted(text, "f.txt".to_string()).unwrap();
    for i in 0..s.hunks().len() {
        s.resolve(i, ResolutionSource::Strategy(kind)).unwrap();
    }
    finish(s)
}

#[test]
fn scenario_left_right_union() {
    assert_eq!(resolve_all(SCENARIO, StrategyKind::Left), "line1\nfoo\nline2\n");
    assert_eq!(resolve_all(SCENARIO, StrategyKind::Right), "line1\nbar\nline2\n");
    assert_eq!(resolve_all(SCENARIO, StrategyKind::Union), "line1\nfoo\nbar\nline2\n");
}

#[test]
fn scenario_parse_shape() {
    let s = MergeSession::from_conflicted(SCENARIO, "f.txt".to_string()).unwrap();
    assert_eq!(s.hunks().len(), 1);
    let h = &s.hunks()[0];
    assert_eq!(h.index, 0);
    assert_eq!(h.ours_label, "HEAD");
    assert_eq!(h.theirs_label, "feature");
    assert_eq!(h.base_label, None);
    assert_eq!(h.ours_lines, vec!["foo".to_string()]);
    assert_eq!(h.theirs_lines, vec!["bar".to_string()]);
    assert!(matches!(h.state, HunkState::Unresolved));
    assert_eq!(s.segments().len(), 3);
    assert!(matches!(&s.segments()[0], Segment::Literal(t) if t == "line1\n"));
    assert!(matches!(&s.segments()[1], Segment::Conflict(0)));
    assert!(matches!(&s.segments()[2], Segment::Literal(t) if t == "line2\n"));
}

#[test]
fn no_markers_single_literal_and_round_trip() {
    let text = "alpha\nbeta\ngamma";
    let s = MergeSession::from_conflicted(text, "p".to_string()).unwrap();
    assert_eq!(s.hunks().len(), 0);
    assert_eq!(s.segments().len(), 1);
    assert!(s.is_fully_resolved());
    assert_eq!(finish(s), text);
}

#[test]
fn empty_input_has_no_segments() {
    let s = MergeSession::from_conflicted("", "p".to_string()).unwrap();
    assert_eq!(s.segments().len(), 0);
    assert_eq!(s.hunks().len(), 0);
    assert_eq!(finish(s), "");
}

#[test]
fn left_and_right_keep_one_side_everywhere() {
    let text = "top\n<<<<<<< ours\no1\no2\n=======\nt1\n>>>>>>> theirs\nmid\n<<<<<<< ours\n=======\nt2\n>>>>>>> theirs\nend";
    assert_eq!(resolve_all(text, StrategyKind::Left), "top\no1\no2\nmid\nend");
    assert_eq!(resolve_all(text, StrategyKind::Right), "top\nt1\nmid\nt2\nend");
}

#[test]
fn is_fully_resolved_tracks_every_hunk() {
    let mut s = MergeSession::from_conflicted(TWO_SAME, "p".to_string()).unwrap();
    assert!(!s.is_fully_resolved());
    s.resolve(0, ResolutionSource::Strategy(StrategyKind::Left)).unwrap();
    assert!(!s.is_fully_resolved());
    s.resolve(1, ResolutionSource::Strategy(StrategyKind::Right)).unwrap();
    assert!(s.is_fully_resolved());
    s.unresolve(1).unwrap();
    assert!(!s.is_fully_resolved());
}

#[test]
fn dedupe_resolves_identical_hunk() {
    let mut s = MergeSession::from_conflicted(TWO_SAME, "p".to_string()).unwrap();
    s.set_dedupe(true);
    s.resolve(0, ResolutionSource::Manual(vec!["chosen".to_string()])).unwrap();
    match &s.hunks()[1].state {
        HunkState::Resolved(r) => {
            assert_eq!(r.content, vec!["chosen".to_string()]);
            assert_eq!(r.origin, Origin::Dedupe(0));
        }
        HunkState::Unresolved => panic!("second hunk should be resolved"),
    }
    assert!(s.is_fully_resolved());
    let mut s = s;
    s.apply().unwrap();
    s.validate().unwrap();
    let done = s.complete().unwrap();
    assert_eq!(done.content, "a\nchosen\nmid\nchosen\nz\n");
    assert_eq!(done.summary.manual, 1);
    assert_eq!(done.summary.dedupe, 1);
    assert_eq!(done.summary.strategy, 0);
    assert_eq!(done.summary.total_hunks, 2);
    assert_eq!(done.summary.resolved_hunks, 2);
}

#[test]
fn without_dedupe_hunks_resolve_independently() {
    let mut s = MergeSession::from_conflicted(TWO_SAME, "p".to_string()).unwrap();
    s.resolve(0, ResolutionSource::Manual(vec!["chosen".to_string()])).unwrap();
    assert!(matches!(s.hunks()[1].state, HunkState::Unresolved));
}

#[test]
fn dedupe_cache_hit_on_later_resolution() {
    let mut s = MergeSession::from_conflicted(TWO_SAME, "p".to_string()).unwrap();
    s.set_dedupe(true);
    s.resolve(0, ResolutionSource::Strategy(StrategyKind::Left)).unwrap();
    s.unresolve(1).unwrap();
    s.resolve(1, ResolutionSource::Strategy(StrategyKind::Right)).unwrap();
    match &s.hunks()[1].state {
        HunkState::Resolved(r) => {
            assert_eq!(r.content, vec!["x".to_string()]);
            assert_eq!(r.origin, Origin::Dedupe(0));
        }
        HunkState::Unresolved => panic!("second hunk should be resolved"),
    }
}

#[test]
fn apply_incomplete_leaves_segments() {
    let mut s = MergeSession::from_conflicted(TWO_SAME, "p".to_string()).unwrap();
    s.resolve(1, ResolutionSource::Strategy(StrategyKind::Left)).unwrap();
    let before = s.segments().len();
    assert_eq!(
        s.apply(),
        Err(SessionError::IncompleteResolution { hunk_index: 0 })
    );
    assert_eq!(s.segments().len(), before);
    assert!(matches!(s.segments()[1], Segment::Conflict(0)));
    assert_eq!(s.state(), LifecycleState::Parsed);
}

#[test]
fn unterminated_conflict_fails_parse() {
    let text = "a\n<<<<<<< HEAD\nfoo\n=======\nbar\n";
    let r = MergeSession::from_conflicted(text, "p".to_string());
    assert!(matches!(r, Err(ParseError::UnterminatedConflict { line: 2 })));
}

#[test]
fn unexpected_markers_fail_parse() {
    assert_eq!(
        parse("a\n=======\n").err(),
        Some(ParseError::UnexpectedMarker { line: 2 })
    );
    assert_eq!(
        parse("<<<<<<< a\n<<<<<<< b\n").err(),
        Some(ParseError::UnexpectedMarker { line: 2 })
    );
    assert_eq!(
        parse(">>>>>>> x\n").err(),
        Some(ParseError::UnexpectedMarker { line: 1 })
    );
}

#[test]
fn diff3_base_strategy() {
    let text = "<<<<<<< ours\no\n||||||| base\nb\n=======\nt\n>>>>>>> theirs\n";
    let s = MergeSession::from_conflicted(text, "p".to_string()).unwrap();
    assert_eq!(s.hunks()[0].base_label, Some("base".to_string()));
    assert_eq!(s.hunks()[0].base_lines, Some(vec!["b".to_string()]));
    assert_eq!(resolve_all(text, StrategyKind::Base), "b\n");
}

#[test]
fn base_strategy_without_base_is_unsupported() {
    let s = MergeSession::from_conflicted(SCENARIO, "p".to_string()).unwrap();
    let r = apply_strategy(&s.hunks()[0], StrategyKind::Base);
    assert_eq!(
        r.err(),
        Some(StrategyError::UnsupportedStrategy { hunk_index: 0 })
    );
    let mut s = s;
    assert_eq!(
        s.resolve(0, ResolutionSource::Strategy(StrategyKind::Base)),
        Err(ResolveError::UnsupportedStrategy { hunk_index: 0 })
    );
}

#[test]
fn resolve_guards() {
    let mut s = MergeSession::from_conflicted(SCENARIO, "p".to_string()).unwrap();
    assert_eq!(
        s.resolve(5, ResolutionSource::Strategy(StrategyKind::Left)),
        Err(ResolveError::InvalidHunkIndex { index: 5 })
    );
    s.resolve(0, ResolutionSource::Strategy(StrategyKind::Left)).unwrap();
    s.apply().unwrap();
    assert_eq!(
        s.resolve(0, ResolutionSource::Strategy(StrategyKind::Right)),
        Err(ResolveError::AlreadyApplied)
    );
    assert_eq!(s.unresolve(0), Err(ResolveError::AlreadyApplied));
}

#[test]
fn lifecycle_out_of_order() {
    let mut s = MergeSession::from_conflicted(SCENARIO, "p".to_string()).unwrap();
    assert_eq!(
        s.validate(),
        Err(SessionError::Lifecycle(LifecycleError {
            expected: LifecycleState::Applied,
            actual: LifecycleState::Parsed
        }))
    );
    assert!(matches!(
        s.complete(),
        Err(SessionError::Lifecycle(LifecycleError {
            expected: LifecycleState::Validated,
            actual: LifecycleState::Parsed
        }))
    ));
    s.resolve(0, ResolutionSource::Strategy(StrategyKind::Left)).unwrap();
    s.apply().unwrap();
    assert_eq!(
        s.apply(),
        Err(SessionError::Lifecycle(LifecycleError {
            expected: LifecycleState::Parsed,
            actual: LifecycleState::Applied
        }))
    );
    s.validate().unwrap();
    s.complete().unwrap();
    assert_eq!(s.state(), LifecycleState::Completed);
    assert!(s.complete().is_err());
}

#[test]
fn residual_marker_fails_validation() {
    let mut s = MergeSession::from_conflicted(SCENARIO, "p".to_string()).unwrap();
    s.resolve(0, ResolutionSource::Manual(vec!["=======".to_string()])).unwrap();
    s.apply().unwrap();
    assert_eq!(
        s.validate(),
        Err(SessionError::Validation(StructuralError::ResidualMarker))
    );
    assert_eq!(s.state(), LifecycleState::Applied);
}

#[test]
fn headless_union_with_dedupe() {
    let out = process_text(TWO_SAME, "p".to_string(), StrategyKind::Union, true).unwrap();
    assert_eq!(out, "a\nx\ny\nmid\nx\ny\nz\n");
}

#[test]
fn batch_stops_at_first_malformed_file() {
    let files = vec![
        ("fileA".to_string(), "<<<<<<< a\nx\n".to_string()),
        ("fileB".to_string(), SCENARIO.to_string()),
    ];
    let out = process_batch(&files, StrategyKind::Left, false);
    assert!(out.done.is_empty());
    let (path, err) = out.failure.unwrap();
    assert_eq!(path, "fileA");
    assert_eq!(
        err,
        HeadlessError::Parse(ParseError::UnterminatedConflict { line: 1 })
    );
}

#[test]
fn batch_processes_all_valid_files() {
    let files = vec![
        ("one".to_string(), SCENARIO.to_string()),
        ("two".to_string(), "plain\n".to_string()),
    ];
    let out = process_batch(&files, StrategyKind::Right, false);
    assert!(out.failure.is_none());
    assert_eq!(out.done.len(), 2);
    assert_eq!(out.done[0].1, "line1\nbar\nline2\n");
    assert_eq!(out.done[1].1, "plain\n");
}

#[test]
fn interactive_finish_partial_and_full() {
    let s = MergeSession::from_conflicted(TWO_SAME, "p".to_string()).unwrap();
    let mut s = s;
    s.resolve(0, ResolutionSource::Strategy(StrategyKind::Left)).unwrap();
    let r = finish_interactive(TWO_SAME.to_string(), s).unwrap();
    assert_eq!(r.content, None);
    assert_eq!(r.hunks_resolved, 1);
    assert_eq!(r.total_hunks, 2);

    let mut s = MergeSession::from_conflicted(SCENARIO, "p".to_string()).unwrap();
    s.resolve(0, ResolutionSource::Strategy(StrategyKind::Right)).unwrap();
    let r = finish_interactive(SCENARIO.to_string(), s).unwrap();
    assert_eq!(r.content, Some("line1\nbar\nline2\n".to_string()));
    assert_eq!(r.hunks_resolved, 1);

    let s = MergeSession::from_conflicted("clean\n", "p".to_string()).unwrap();
    let r = finish_interactive("clean\n".to_string(), s).unwrap();
    assert_eq!(r.content, Some("clean\n".to_string()));
    assert_eq!(r.total_hunks, 0);
}

#[test]
fn crlf_lines_are_kept_verbatim() {
    let text = "a\r\n<<<<<<< HEAD\r\nfoo\r\n=======\r\nbar\r\n>>>>>>> f\r\nb\r\n";
    assert_eq!(resolve_all(text, StrategyKind::Left), "a\r\nfoo\r\nb\r\n");
}

#[test]
fn apply_fills_each_segment_slot() {
    let mut s = MergeSession::from_conflicted(SCENARIO, "p".to_string()).unwrap();
    s.resolve(0, ResolutionSource::Strategy(StrategyKind::Union)).unwrap();
    s.apply().unwrap();
    assert_eq!(s.segments().len(), 3);
    assert!(matches!(&s.segments()[0], Segment::Literal(t) if t == "line1\n"));
    assert!(matches!(&s.segments()[1], Segment::Literal(t) if t == "foo\nbar\n"));
    assert!(matches!(&s.segments()[2], Segment::Literal(t) if t == "line2\n"));
}

#[test]
fn interactive_finish_on_applied_session_is_lifecycle_error() {
    let mut s = MergeSession::from_conflicted(SCENARIO, "p".to_string()).unwrap();
    s.resolve(0, ResolutionSource::Strategy(StrategyKind::Left)).unwrap();
    s.apply().unwrap();
    let r = finish_interactive(SCENARIO.to_string(), s);
    assert!(matches!(
        r,
        Err(SessionError::Lifecycle(LifecycleError {
            expected: LifecycleState::Parsed,
            actual: LifecycleState::Applied
        }))
    ));
}

#[test]
fn headless_left_on_diff3_input_drops_base_and_theirs() {
    let text = "a\n<<<<<<< o\nx\n||||||| b\nbase\n=======\ny\n>>>>>>> t\nz";
    let out = process_text(text, "p".to_string(), StrategyKind::Left, false).unwrap();
    assert_eq!(out, "a\nx\nz");
    let out = process_text(text, "p".to_string(), StrategyKind::Right, true).unwrap();
    assert_eq!(out, "a\ny\nz");
}
