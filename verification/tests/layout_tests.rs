use livefetch::info::modules::InfoLine;
use livefetch::layout::{closing, format_info, opening, paint_info, place, LiveLoop, Placement, Step};

#[test]
fn opening_and_closing_text() {
    assert_eq!(opening(2), "\x1b[?25l\n\n\x1b[2A\x1b7");
    assert_eq!(opening(0), "\x1b[?25l\x1b[0A\x1b7");
    assert_eq!(closing(5), "\x1b8\x1b[5B\r\x1b[?25h");
}

#[test]
fn paint_pads_and_cuts_rows() {
    let lines = vec!["a".to_string(), "b".to_string()];
    assert_eq!(
        paint_info(&lines, 3, 3),
        "\x1b8\x1b[3C\x1b[Ka\x1b8\x1b[1B\x1b[3C\x1b[Kb\x1b8\x1b[2B\x1b[3C\x1b[K\x1b8"
    );
    assert_eq!(paint_info(&lines, 0, 1), "\x1b8\x1b[Ka\x1b8");
    assert_eq!(paint_info(&lines, 0, 0), "\x1b8");
}

#[test]
fn info_lines_are_formatted() {
    let info = vec![
        InfoLine::title("alice@box".to_string()),
        InfoLine::sep(3),
        InfoLine::field("OS".to_string(), "Linux".to_string()),
        InfoLine::br(),
        InfoLine::colors(),
    ];
    let out = format_info(&info);
    assert_eq!(out.len(), 6);
    assert_eq!(out[0], "\x1b[1;36malice@box\x1b[0m");
    assert_eq!(out[1], "\x1b[2m───\x1b[0m");
    assert_eq!(out[2], "\x1b[1;36mOS\x1b[0m: Linux");
    assert_eq!(out[3], "");
    let mut row1 = String::new();
    let mut row2 = String::new();
    for c in 0..8 {
        row1.push_str(&format!("\x1b[4{}m   \x1b[0m", c));
        row2.push_str(&format!("\x1b[10{}m   \x1b[0m", c));
    }
    assert_eq!(out[4], row1);
    assert_eq!(out[5], row2);
}

#[test]
fn placement_leaves_room_for_text() {
    assert_eq!(
        place(true, true, 34, 80, 10, 15),
        Placement { image_cols: 34, info_col: 36, total_rows: 15 }
    );
    assert_eq!(
        place(true, true, 34, 30, 5, 0),
        Placement { image_cols: 10, info_col: 12, total_rows: 5 }
    );
    assert_eq!(
        place(false, true, 34, 80, 7, 0),
        Placement { image_cols: 0, info_col: 0, total_rows: 7 }
    );
    assert_eq!(
        place(true, true, 34, 10, 0, 0),
        Placement { image_cols: 0, info_col: 0, total_rows: 1 }
    );
}

#[test]
fn live_loop_schedule() {
    let mut l = LiveLoop::start(1000, 500, true, 3, 70);
    assert_eq!(l.frame_idx, 0);
    assert_eq!(l.next_frame_at, Some(1070));
    assert_eq!(l.next_info_at, 1500);
    assert_eq!(l.plan(1050, false, 3), Step::Work { frame: None, refresh_info: false });
    assert_eq!(l.plan(1080, false, 3), Step::Work { frame: Some(1), refresh_info: false });
    l.frame_drawn(1080, 70);
    assert_eq!(l.next_frame_at, Some(1150));
    assert_eq!(l.wait(1100), 50);
    assert_eq!(l.wait(1130), 20);
    assert_eq!(l.wait(2000), 0);
    assert_eq!(l.plan(1600, false, 3), Step::Work { frame: Some(2), refresh_info: true });
    l.info_drawn(1600);
    assert_eq!(l.next_info_at, 2100);
    l.frame_drawn(1600, 70);
    assert_eq!(l.plan(1700, false, 3), Step::Work { frame: Some(0), refresh_info: false });
    assert_eq!(l.plan(1700, true, 3), Step::Stop);
}

#[test]
fn live_loop_without_animation() {
    let l = LiveLoop::start(0, 500, false, 3, 70);
    assert_eq!(l.next_frame_at, None);
    let l = LiveLoop::start(0, 500, true, 1, 70);
    assert_eq!(l.next_frame_at, None);
}
