use upt::calendar::Fields;
use upt::instant::Instant;
use upt::render::{clear_text, render_duration, replace_and, start_message};

#[test]
fn human_rendering_uses_comma_before_final_unit() {
    let start = Instant::from_unix(0, 0);
    let now = Instant::from_unix(3 * 3600 + 2 * 60 + 5, 0);
    let text = render_duration(&now, &start, false).unwrap();
    assert_eq!(text, "3 hours, 2 minutes, 5 seconds");
    assert!(!text.contains(" and"));
}

#[test]
fn human_rendering_zero_elapsed() {
    let start = Instant::from_unix(42, 0);
    let now = Instant::from_unix(42, 0);
    let text = render_duration(&now, &start, false).unwrap();
    assert_eq!(text, "0 seconds");
}

#[test]
fn human_rendering_subsecond_elapsed_truncates_to_zero() {
    let start = Instant::from_unix(42, 0);
    let now = Instant::from_unix(42, 900_000_000);
    let text = render_duration(&now, &start, false).unwrap();
    assert_eq!(text, "0 seconds");
}

#[test]
fn machine_rendering_is_lossless_and_parseable() {
    let start = Instant::from_unix(0, 0);
    let now = Instant::from_unix(3 * 3600 + 2 * 60 + 5, 0);
    let text = render_duration(&now, &start, true).unwrap();
    assert_eq!(text, "PT10925S");
    // chrono reads its own notation back without loss
    let sub = Instant::from_unix(10, 250_000_000);
    let text2 = render_duration(&sub, &start, true).unwrap();
    assert_eq!(text2, "PT10.25S");
}

#[test]
fn negative_elapsed_renders_with_sign() {
    let start = Instant::from_unix(100, 0);
    let now = Instant::from_unix(95, 0);
    let text = render_duration(&now, &start, true).unwrap();
    assert_eq!(text, "-PT5S");
    // the human phrase carries no sign: present tense drops the direction
    let human = render_duration(&now, &start, false).unwrap();
    assert_eq!(human, "5 seconds");
}

#[test]
fn replace_and_rewrites_every_joint() {
    assert_eq!(replace_and("3 hours and 2 minutes"), "3 hours, 2 minutes");
    assert_eq!(replace_and("a and b and c"), "a, b, c");
    assert_eq!(replace_and("sand castle"), "sand castle");
    assert_eq!(replace_and(""), "");
    assert_eq!(replace_and(" and"), ",");
}

#[test]
fn start_message_simple_and_strict() {
    let f = Fields {
        year: 2023,
        month: 6,
        day: 4,
        hour: 9,
        minute: 38,
        second: 11,
        nanos: 0,
    };
    assert_eq!(start_message(&f, 0, false), "Started 2023-06-04 09:38:11");
    assert_eq!(
        start_message(&f, 7200, true),
        "Started 2023-06-04T09:38:11.000000000+02:00"
    );
    assert_eq!(
        start_message(&f, -4500, true),
        "Started 2023-06-04T09:38:11.000000000-01:15"
    );
}

#[test]
fn clear_text_overwrites_exactly() {
    assert_eq!(clear_text(0), "\r\r");
    assert_eq!(clear_text(3), "\r   \r");
}
