use bnu_core::transcribe::mmss;

#[test]
fn mmss_formats_hours() {
    assert_eq!(mmss(0), "00:00:00");
    assert_eq!(mmss(65_000), "00:01:05");
    assert_eq!(mmss(3_725_000), "01:02:05");
}
