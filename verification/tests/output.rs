use mainstage_core::output::{Progress, ProgressCharacterSet, Spinner, SpinnerCharacterSet, BoxBorders, BoxCorners, inner_width_for, rule_line, boxed_row};

#[test]
fn progress_renders_start_of_hashes_bar() {
    let pb = Progress::new(10).with_progress_characters(ProgressCharacterSet::hashes());
    assert_eq!(pb.render(), "[>---------]   0%");
}

#[test]
fn progress_renders_one_step_of_ten() {
    let mut pb = Progress::new(10).with_progress_characters(ProgressCharacterSet::hashes());
    pb.advance();
    assert_eq!(pb.render(), "[#>--------]  10%");
}

#[test]
fn progress_renders_complete_bar() {
    let mut pb = Progress::new(10).with_progress_characters(ProgressCharacterSet::hashes());
    pb.advance_by(10);
    assert_eq!(pb.render(), "[##########] 100%");
}

#[test]
fn progress_over_complete_stays_full() {
    let pb = Progress::new(4).with_progress_characters(ProgressCharacterSet::arrow()).with_steps(9);
    assert_eq!(pb.render(), "[====] 100%");
}

#[test]
fn progress_of_no_steps_shows_zero() {
    let pb = Progress::new(0).with_progress_characters(ProgressCharacterSet::hashes());
    assert_eq!(pb.render(), "[] 0  %");
}

#[test]
fn progress_default_characters_are_boxes() {
    let pb = Progress::new(3).with_steps(1);
    assert_eq!(pb.render(), "│█▒░│  33%");
    assert_eq!(pb.get_progress(), 1);
    assert_eq!(pb.get_total(), 3);
    assert_eq!(pb.get_characters().complete, '█');
}

#[test]
fn progress_without_containers_uses_spaces() {
    let cs = ProgressCharacterSet::new(None, '*', '+', '.', None);
    let pb = Progress::new(2).with_progress_characters(cs).with_total(4).with_steps(2);
    assert_eq!(pb.render(), " **+.   50%");
}

#[test]
fn spinner_cycles_through_line_frames() {
    let mut sp = Spinner::new().with_frames(SpinnerCharacterSet::line());
    assert_eq!(sp.next_frame(), "-");
    assert_eq!(sp.next_frame(), "\\");
    assert_eq!(sp.next_frame(), "|");
    assert_eq!(sp.next_frame(), "/");
    assert_eq!(sp.next_frame(), "-");
}

#[test]
fn spinner_starts_with_dots() {
    let mut sp = Spinner::new();
    assert_eq!(sp.next_frame(), "⠋");
    assert_eq!(sp.next_frame(), "⠙");
}

#[test]
fn spinner_sets_have_their_frame_counts() {
    assert_eq!(SpinnerCharacterSet::dots().frames.len(), 10);
    assert_eq!(SpinnerCharacterSet::circle().frames.len(), 4);
    assert_eq!(SpinnerCharacterSet::arrow().frames.len(), 8);
    assert_eq!(SpinnerCharacterSet::new(vec!["a".to_string()]).frames.len(), 1);
}

#[test]
fn box_parts_render() {
    let corners = BoxCorners::default();
    let borders = BoxBorders::default();
    assert_eq!(inner_width_for(10), 6);
    assert_eq!(inner_width_for(3), 0);
    assert_eq!(rule_line(corners.top_left, borders.top, corners.top_right, 3), "┌─────┐");
    assert_eq!(boxed_row(&borders, "hi", 2, 5), "│ hi    │");
    assert_eq!(boxed_row(&borders, "toolong", 7, 5), "│ toolong │");
}

#[test]
fn preset_character_sets() {
    let s = ProgressCharacterSet::stars();
    assert_eq!((s.left_container, s.complete, s.current, s.incomplete, s.right_container), (Some('('), '*', '+', '.', Some(')')));
    let c = ProgressCharacterSet::circles();
    assert_eq!(c.complete, '●');
    let b = ProgressCharacterSet::boxes();
    assert_eq!(b.incomplete, '░');
    let d = ProgressCharacterSet::default();
    assert_eq!(d.current, '▒');
}
