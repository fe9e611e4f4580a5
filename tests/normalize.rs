use engraver::normalize::normalize;

#[test]
fn rapid_move_becomes_feed_move() {
    assert_eq!(normalize("G0 X10 Y20", 500), "G1 X10 Y20 F500");
}

#[test]
fn feed_move_is_unaffected() {
    assert_eq!(normalize("G1 X10 Y20", 500), "G1 X10 Y20");
}

#[test]
fn rapid_move_only_at_line_start() {
    assert_eq!(normalize("M3 G0 X1", 500), "M3 G0 X1");
    assert_eq!(normalize("G00 X1", 500), "G00 X1");
}

#[test]
fn feed_rate_digits() {
    assert_eq!(normalize("G0 X1", 0), "G1 X1 F0");
    assert_eq!(normalize("G0 X1", 1234567), "G1 X1 F1234567");
}

#[test]
fn precision_clamp_truncates() {
    assert_eq!(normalize("X12.3456", 500), "X12.34");
    assert_eq!(normalize("X12.3", 500), "X12.3");
    assert_eq!(normalize("X12", 500), "X12");
    assert_eq!(normalize("X12.34", 500), "X12.34");
    assert_eq!(normalize("X1.999 Y-0.12345", 500), "X1.99 Y-0.12");
}

#[test]
fn comment_stripping() {
    assert_eq!(normalize("G1 X1 Y1 ; move", 500), "G1 X1 Y1 ");
    assert_eq!(normalize("; only a comment", 500), "");
    assert_eq!(normalize("G1 X1", 500), "G1 X1");
}

#[test]
fn rewrites_apply_in_order() {
    assert_eq!(normalize("G0 X1.23456 Y2", 300), "G1 X1.23 Y2 F300");
    assert_eq!(normalize("G0 X1 ; fast", 300), "G1 X1 ");
}

#[test]
fn line_count_is_kept() {
    let raw = "G0 X1\n; header\nG1 X2.5555\n\nM5\n";
    let out = normalize(raw, 700);
    assert_eq!(out, "G1 X1 F700\n\nG1 X2.55\n\nM5\n");
    assert_eq!(out.split('\n').count(), raw.split('\n').count());
}

#[test]
fn empty_text_stays_empty() {
    assert_eq!(normalize("", 500), "");
}

#[test]
fn normalize_is_idempotent_on_marker_free_text() {
    let x = "G1 X12.3456 Y7.1\nM3 S300\nG1 X0.12345";
    let once = normalize(x, 500);
    assert_eq!(normalize(&once, 500), once);
    let y = "G1 X12.3456.789";
    let once = normalize(y, 500);
    assert_eq!(normalize(&once, 500), once);
}
